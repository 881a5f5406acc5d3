//! The null concurrency protocol: no concurrency control at all.  Every
//! operation passes directly through to the durability backend; a baseline
//! with no isolation guarantees.

use vstd::prelude::*;

use core::marker::PhantomData;

use crate::rw::{RWControl, RWDurable};
use crate::tx::{End, Tx};

verus! {

/// The pass-through protocol.
pub struct Null<V, T>(PhantomData<(V, T)>);

impl<V, T> Null<V, T> {
    pub fn new() -> Self {
        Null(PhantomData)
    }
}

impl<V, T, D> RWControl<V, T, D> for Null<V, T> where T: Tx<V>, D: RWDurable<V, T> {
    type Err = D::Err;

    open spec fn inv(&self) -> bool {
        true
    }

    open spec fn admits(&self, txn: T) -> bool {
        true
    }

    proof fn admits_go(&self, txn: T) {
    }

    fn rd(&mut self, txn: T, prp: T::Prp, dur: &D) -> (r: Result<Option<T>, D::Err>)
        ensures
            (match dur.s_rd(prp) {
                Ok(m) => r == Ok::<Option<T>, D::Err>(Some(txn.s_rd(m))),
                Err(e) => r == Err::<Option<T>, D::Err>(e),
            }),
    {
        match dur.rd(prp) {
            Ok(m) => Ok(Some(txn.rd(m))),
            Err(e) => Err(e),
        }
    }

    fn wr(&mut self, txn: T, mapv: T::Mapping, dur: &mut D) -> (r: Result<Option<T>, D::Err>)
        ensures
            (match old(dur).s_wr_res(&txn, mapv) {
                Ok(u) => r == Ok::<Option<T>, D::Err>(Some(txn.s_wr())),
                Err(e) => r == Err::<Option<T>, D::Err>(e),
            }),
    {
        match dur.wr(&txn, mapv) {
            Ok(_) => Ok(Some(txn.wr())),
            Err(e) => Err(e),
        }
    }

    fn open(&mut self, txn: &mut T, dur: &D) -> (r: Result<(), D::Err>)
        ensures
            *final(txn) == *old(txn),
            r == dur.s_open_res(old(txn)),
    {
        dur.open(txn)
    }

    /// Close through the backend hook alone: success exactly when the
    /// hook succeeds, the output released immediately, no next transaction.
    fn done(&mut self, txn: T, end: End, dur: &mut D) -> (r: Result<
        (Option<T>, Option<Option<T::Out>>),
        D::Err,
    >)
        ensures
            *final(dur) == *old(dur),
            (match old(dur).s_done_res(&txn, end) {
                Ok(u) => r == Ok::<(Option<T>, Option<Option<T::Out>>), D::Err>(
                    (None, Some(txn.s_cl())),
                ),
                Err(e) => r == Err::<(Option<T>, Option<Option<T::Out>>), D::Err>(e),
            }),
    {
        match dur.done(&txn, end) {
            Err(e) => Err(e),
            Ok(_) => Ok((None, Some(txn.cl()))),
        }
    }
}

} // verus!
