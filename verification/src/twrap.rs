//! Protocol-private auxiliary state attached to a wrapped transaction: the
//! read-set, the write-set and the writes-published flag.

use vstd::prelude::*;

use crate::vecmap::VecMap;

verus! {

/// Auxiliary per-transaction state.  The read-set maps each key read to the
/// value observed and the writer id depended on; the write-set maps each
/// key written to its pending value and whether it has been published.
#[derive(Debug)]
pub struct Aux<V> {
    pub rdset: VecMap<(Option<V>, u64)>,
    pub wrset: VecMap<(Option<V>, bool)>,
    pub wrpub: bool,
}

/// An auxiliary state with nothing recorded.
pub open spec fn fresh_aux<V>(a: Aux<V>) -> bool {
    &&& a.rdset@ == Map::<u64, (Option<V>, u64)>::empty()
    &&& a.wrset@ == Map::<u64, (Option<V>, bool)>::empty()
    &&& a.wrpub == false
    &&& a.rdset.wf()
    &&& a.wrset.wf()
}

impl<V: Copy> Aux<V> {
    pub open spec fn wf(&self) -> bool {
        self.rdset.wf() && self.wrset.wf()
    }

    pub fn new() -> (r: Self)
        ensures
            fresh_aux(r),
    {
        Aux { rdset: VecMap::new(), wrset: VecMap::new(), wrpub: false }
    }

    /// The value this transaction itself has already observed or written
    /// for `key`, if any; the write-set shadows the read-set, so a
    /// transaction always reads its own pending writes.
    pub fn read_local(&self, key: u64) -> (r: Option<Option<V>>)
        requires
            self.wf(),
        ensures
            r == spec_read_local(*self, key),
    {
        match self.wrset.get(key) {
            Some(p) => Some(p.0),
            None => match self.rdset.get(key) {
                Some(p) => Some(p.0),
                None => None,
            },
        }
    }
}

/// What `read_local` answers: pending writes first, then observed reads.
pub open spec fn spec_read_local<V>(a: Aux<V>, key: u64) -> Option<Option<V>> {
    if a.wrset@.contains_key(key) {
        Some(a.wrset@[key].0)
    } else if a.rdset@.contains_key(key) {
        Some(a.rdset@[key].0)
    } else {
        None
    }
}

/// How a protocol holds auxiliary state on a wrapped transaction: directly,
/// or behind one level of indirection for cheaper moves.
pub trait AuxStore<V>: Sized {
    /// The auxiliary state held.
    spec fn s_aux(self) -> Aux<V>;

    fn new_store() -> (r: Self)
        ensures
            fresh_aux(r.s_aux()),
    ;

    /// Unpack the held auxiliary state.
    fn into_aux(self) -> (r: Aux<V>)
        ensures
            r == self.s_aux(),
    ;

    /// Pack an auxiliary state.
    fn from_aux(a: Aux<V>) -> (r: Self)
        ensures
            r.s_aux() == a,
    ;
}

impl<V: Copy> AuxStore<V> for Aux<V> {
    open spec fn s_aux(self) -> Aux<V> {
        self
    }

    fn new_store() -> (r: Self) {
        Aux::new()
    }

    fn into_aux(self) -> (r: Aux<V>) {
        self
    }

    fn from_aux(a: Aux<V>) -> (r: Self) {
        a
    }
}

impl<V: Copy> AuxStore<V> for Box<Aux<V>> {
    open spec fn s_aux(self) -> Aux<V> {
        *self
    }

    fn new_store() -> (r: Self) {
        Box::new(Aux::new())
    }

    fn into_aux(self) -> (r: Aux<V>) {
        *self
    }

    fn from_aux(a: Aux<V>) -> (r: Self) {
        Box::new(a)
    }
}

} // verus!
