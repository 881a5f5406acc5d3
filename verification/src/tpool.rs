//! The pending-transaction pool: suspended transactions under "todo" and
//! speculatively finished ones under "done", each keyed by id.

use vstd::prelude::*;

use core::marker::PhantomData;

use crate::tx::Tx;
use crate::vecmap::VecMap;

verus! {

/// A pool of pending transactions.
pub struct TPool<T: Tx<V>, V> {
    todo: VecMap<T>,
    done: VecMap<T>,
    phan: PhantomData<V>,
}

/// A scheduling coin toss, used to let a worker periodically come back for
/// fresh input instead of stealing pending work.
///
/// Relies on rand::random::<bool>: nothing is promised of the outcome.
#[verifier::external_body]
fn coin() -> bool {
    rand::random::<bool>()
}

impl<T: Tx<V>, V> TPool<T, V> {
    /// The suspended transactions, by id.
    pub closed spec fn todos(&self) -> Map<u64, T> {
        self.todo@
    }

    /// The transactions waiting only for their commit turn, by id.
    pub closed spec fn dones(&self) -> Map<u64, T> {
        self.done@
    }

    /// Both maps are keyed by the transactions' own ids.
    pub closed spec fn wf(&self) -> bool {
        &&& self.todo.wf()
        &&& self.done.wf()
        &&& forall|k: u64|
            #[trigger] self.todo@.contains_key(k) ==> self.todo@[k].sid() == k
        &&& forall|k: u64|
            #[trigger] self.done@.contains_key(k) ==> self.done@[k].sid() == k
    }

    pub fn new() -> (r: Self)
        ensures
            r.todos() == Map::<u64, T>::empty(),
            r.dones() == Map::<u64, T>::empty(),
            r.wf(),
    {
        TPool { todo: VecMap::new(), done: VecMap::new(), phan: PhantomData }
    }

    /// File a transaction that needs more protocol steps.
    pub fn put_todo(&mut self, txn: T)
        requires
            old(self).wf(),
        ensures
            final(self).wf(),
            final(self).todos() == old(self).todos().insert(txn.sid(), txn),
            final(self).dones() == old(self).dones(),
    {
        let id = txn.id();
        self.todo.insert(id, txn);
    }

    /// File a transaction whose writes are published, awaiting its turn.
    pub fn put_done(&mut self, txn: T)
        requires
            old(self).wf(),
        ensures
            final(self).wf(),
            final(self).dones() == old(self).dones().insert(txn.sid(), txn),
            final(self).todos() == old(self).todos(),
    {
        let id = txn.id();
        self.done.insert(id, txn);
    }

    /// Hand out work: an exact match under "done" is preferred, then an
    /// exact match under "todo"; otherwise either nothing (so the worker
    /// checks for fresh input) or some pending "todo" transaction.
    pub fn get_prog(&mut self, tid: u64) -> (r: Option<T>)
        requires
            old(self).wf(),
        ensures
            final(self).wf(),
            spec_get_prog(*old(self), tid, *final(self), r),
    {
        match self.done.remove(tid) {
            Some(txn) => {
                return Some(txn);
            },
            None => (),
        }
        proof {
            assert(self.done@ =~= old(self).dones());
        }
        match self.todo.remove(tid) {
            Some(txn) => Some(txn),
            None => {
                proof {
                    assert(self.todo@ =~= old(self).todos());
                }
                if coin() {
                    proof {
                        assert(self.todo@ =~= old(self).todos());
                        assert(self.done@ =~= old(self).dones());
                    }
                    None
                } else {
                    proof {
                        assert(self.done@ =~= old(self).dones());
                    }
                    match self.todo.pop() {
                        Some((k, txn)) => {
                            proof {
                                assert(old(self).todos()[k].sid() == k);
                            }
                            Some(txn)
                        },
                        None => {
                            proof {
                                assert(self.todo@ =~= old(self).todos());
                            }
                            None
                        },
                    }
                }
            },
        }
    }
}

/// The outcomes a pool hand-out admits, over the raw id-keyed maps.  The
/// stolen transaction, when one is stolen, is identified by its own id.
pub open spec fn pool_pick<T: Tx<V>, V>(
    todo: Map<u64, T>,
    done: Map<u64, T>,
    tid: u64,
    todo2: Map<u64, T>,
    done2: Map<u64, T>,
    r: Option<T>,
) -> bool {
    match r {
        Some(t) => {
            ||| (done.contains_key(tid) && t == done[tid] && done2 == done.remove(tid) && todo2
                == todo)
            ||| (!done.contains_key(tid) && todo.contains_key(tid) && t == todo[tid] && todo2
                == todo.remove(tid) && done2 == done)
            ||| (!done.contains_key(tid) && !todo.contains_key(tid) && todo.contains_key(t.sid())
                && t == todo[t.sid()] && todo2 == todo.remove(t.sid()) && done2 == done)
        },
        None => !done.contains_key(tid) && !todo.contains_key(tid) && todo2 == todo && done2
            == done,
    }
}

/// The outcomes `get_prog` admits.
pub open spec fn spec_get_prog<T: Tx<V>, V>(
    pre: TPool<T, V>,
    tid: u64,
    post: TPool<T, V>,
    r: Option<T>,
) -> bool {
    pool_pick(pre.todos(), pre.dones(), tid, post.todos(), post.dones(), r)
}

} // verus!
