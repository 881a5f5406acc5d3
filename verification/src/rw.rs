//! Read-write control interface traits.

use vstd::prelude::*;

use crate::tx::{End, Tx};

verus! {

/// Guarantees the durability of reads and writes: the store of record,
/// consulted on cache miss and written on final commit.
///
/// A backend is a deterministic function of its own state: reads and writes
/// are mirrored by spec functions that implementations must meet.
pub trait RWDurable<V, T: Tx<V>>: Sized {
    type Err;

    /// The mathematical content of the store: everything its observable
    /// behaviour depends on.
    type Model;

    /// The internal well-formedness every backend state keeps.
    spec fn inv(&self) -> bool;

    /// The store's content.
    spec fn model(&self) -> Self::Model;

    /// What `rd` returns, as a function of the backend state.
    spec fn s_rd(&self, prp: T::Prp) -> Result<T::Mapping, Self::Err>;

    /// The result of `wr`, as a function of the backend state.
    spec fn s_wr_res(&self, txn: &T, map: T::Mapping) -> Result<(), Self::Err>;

    /// The store's content after a persist.
    spec fn s_wr_model(&self, txn: &T, map: T::Mapping) -> Self::Model;

    /// The result of the open hook, as a function of the backend state.
    spec fn s_open_res(&self, txn: &T) -> Result<(), Self::Err>;

    /// The result of the close hook, as a function of the backend state.
    spec fn s_done_res(&self, txn: &T, end: End) -> Result<(), Self::Err>;

    /// Resolve the keys a proposition selects from durable storage.
    fn rd(&self, prp: T::Prp) -> (r: Result<T::Mapping, Self::Err>)
        requires
            self.inv(),
        ensures
            r == self.s_rd(prp),
    ;

    /// Persist a final committed write set.
    fn wr(&mut self, txn: &T, map: T::Mapping) -> (r: Result<(), Self::Err>)
        requires
            old(self).inv(),
        ensures
            final(self).inv(),
            r == old(self).s_wr_res(txn, map),
            final(self).model() == old(self).s_wr_model(txn, map),
    ;

    /// Lifecycle hook when a transaction is opened; best-effort.
    fn open(&self, txn: &T) -> (r: Result<(), Self::Err>)
        requires
            self.inv(),
        ensures
            r == self.s_open_res(txn),
    ;

    /// Lifecycle hook when a transaction ends.
    fn done(&self, txn: &T, end: End) -> (r: Result<(), Self::Err>)
        requires
            self.inv(),
        ensures
            r == self.s_done_res(txn, end),
    ;
}

/// A concurrency-control protocol: routes each read, write and close of a
/// transaction through its own state, and may suspend the caller's
/// transaction and hand back a different runnable one instead.
///
/// A protocol carries an internal invariant (`inv`) and a validity notion
/// for the transactions it routes (`admits`): every operation preserves
/// both, and every transaction handed back is itself admitted, so a driver
/// that opens what it receives may keep feeding transactions back in.
pub trait RWControl<V, T: Tx<V>, D: RWDurable<V, T>> {
    type Err;

    /// The internal well-formedness every protocol state keeps.
    spec fn inv(&self) -> bool;

    /// The transactions this protocol is prepared to route.
    spec fn admits(&self, txn: T) -> bool;

    /// Admission survives the transaction's own stepping: the event a
    /// transaction yields carries an admitted transaction, and an internal
    /// operation keeps it admitted.
    proof fn admits_go(&self, txn: T)
        requires
            self.admits(txn),
        ensures
            (match txn.s_go() {
                crate::tx::RWClosure::Op(t) => self.admits(t.s_op()),
                crate::tx::RWClosure::Rd(t, _) => self.admits(t),
                crate::tx::RWClosure::Wr(t, _) => self.admits(t),
                crate::tx::RWClosure::Cl(t, _) => self.admits(t),
            }),
    ;

    /// Route a read request; the returned transaction may differ from the
    /// one passed in whenever that one was suspended.
    fn rd(&mut self, txn: T, prp: T::Prp, dur: &D) -> (r: Result<Option<T>, Self::Err>)
        requires
            old(self).inv(),
            old(self).admits(txn),
            dur.inv(),
        ensures
            final(self).inv(),
            (match r {
                Ok(Some(t)) => final(self).admits(t),
                _ => true,
            }),
            forall|t: T| old(self).admits(t) ==> final(self).admits(t),
    ;

    /// Route a write request.
    fn wr(&mut self, txn: T, map: T::Mapping, dur: &mut D) -> (r: Result<Option<T>, Self::Err>)
        requires
            old(self).inv(),
            old(self).admits(txn),
            old(dur).inv(),
        ensures
            final(self).inv(),
            final(dur).inv(),
            (match r {
                Ok(Some(t)) => final(self).admits(t),
                _ => true,
            }),
            forall|t: T| old(self).admits(t) ==> final(self).admits(t),
    ;

    /// Admit a transaction: record its checkpoint and notify the backend.
    fn open(&mut self, txn: &mut T, dur: &D) -> (r: Result<(), Self::Err>)
        requires
            old(self).inv(),
            dur.inv(),
        ensures
            final(self).inv(),
            final(self).admits(*final(txn)),
            forall|t: T| old(self).admits(t) ==> final(self).admits(t),
    ;

    /// Route a close request; when the transaction's commit turn has come,
    /// its output is released as the second component.
    fn done(&mut self, txn: T, end: End, dur: &mut D) -> (r: Result<
        (Option<T>, Option<Option<T::Out>>),
        Self::Err,
    >)
        requires
            old(self).inv(),
            old(self).admits(txn),
            old(dur).inv(),
        ensures
            final(self).inv(),
            final(dur).inv(),
            (match r {
                Ok((Some(t), _)) => final(self).admits(t),
                _ => true,
            }),
            forall|t: T| old(self).admits(t) ==> final(self).admits(t),
    ;
}

} // verus!
