//! A transaction service that owns one protocol and one durability backend
//! and drives submitted transactions through them, one step at a time.
//!
//! Submission goes through a bounded admission queue (backpressure: a full
//! queue rejects the transaction back to the caller, never drops it), and
//! outputs are retrievable by id once a transaction has closed.

use vstd::prelude::*;

use core::marker::PhantomData;

use crate::rw::{RWControl, RWDurable};
use crate::tx::{RWClosure, Tx, TxService};
use crate::vecmap::VecMap;

verus! {

/// The errors of the step-driven service.
#[derive(Debug)]
pub enum MThreadServiceError<T> {
    /// Worker failures aggregated at shutdown.
    ShutdownErrorReport(Vec<String>),
    /// The queried transaction aborted.
    TxAborted,
    /// The queried transaction has not closed yet.
    TxPending,
    /// The transaction could not be submitted; it is handed back.
    SendError(T),
    /// No sender is open: the service is not started.
    NoSenderOpen,
}

/// The observable scheduling state of the service: the admission queue,
/// the pooled transactions, the recorded outputs and the failure count.
pub ghost struct SvcModel<T, O> {
    pub queued: Seq<T>,
    pub pooled: Map<u64, T>,
    pub outputs: Map<u64, Option<O>>,
    pub fails: int,
}

/// One scheduling step of the driver.  While submissions wait, the front
/// one is admitted: it is opened and pooled under its id, or recorded as a
/// failure.  Otherwise the lowest-id pooled transaction is driven one
/// event: it may be re-pooled (possibly as a different transaction handed
/// back by the protocol), leave the pool (suspended inside the protocol or
/// closed), release its output, or be recorded as a failure.  With nothing
/// to do, nothing changes.
pub open spec fn svc_step<T: Tx<V>, V, O>(s: SvcModel<T, O>, s2: SvcModel<T, O>) -> bool {
    if s.queued.len() > 0 {
        &&& s2.queued == s.queued.drop_first()
        &&& s2.outputs == s.outputs
        &&& {
            ||| (s2.fails == s.fails && exists|t2: T|
                s2.pooled == s.pooled.insert(#[trigger] t2.sid(), t2))
            ||| (s2.fails == s.fails + 1 && s2.pooled == s.pooled)
        }
    } else if s.pooled == Map::<u64, T>::empty() {
        s2 == s
    } else {
        exists|k: u64|
            {
                &&& #[trigger] s.pooled.contains_key(k)
                &&& forall|k2: u64| #[trigger] s.pooled.contains_key(k2) ==> k <= k2
                &&& s2.queued == s.queued
                &&& (s2.outputs == s.outputs || exists|o: Option<O>|
                    s2.outputs == s.outputs.insert(k, o))
                &&& (s2.pooled == s.pooled.remove(k) || exists|t2: T|
                    s2.pooled == s.pooled.remove(k).insert(#[trigger] t2.sid(), t2))
                &&& (s2.fails == s.fails || s2.fails == s.fails + 1)
            }
    }
}

/// A single-owner service: a bounded admission queue, a local pool ordered
/// by id, a results map, the protocol and the backend.
pub struct StepService<T, V, Con, Dur> where
    T: Tx<V>,
    Dur: RWDurable<V, T>,
    Con: RWControl<V, T, Dur>,
 {
    con: Con,
    dur: Dur,
    capacity: usize,
    queue: Vec<T>,
    pooling: VecMap<T>,
    results: VecMap<Option<T::Out>>,
    started: bool,
    failures: Vec<String>,
    phan: PhantomData<V>,
}

impl<T, V, Con, Dur> StepService<T, V, Con, Dur> where
    T: Tx<V>,
    Dur: RWDurable<V, T>,
    Con: RWControl<V, T, Dur>,
 {
    /// The service keeps its protocol and backend invariants, and every
    /// pooled transaction is admitted by the protocol.
    pub closed spec fn wf(&self) -> bool {
        &&& self.con.inv()
        &&& self.dur.inv()
        &&& self.pooling.wf()
        &&& self.results.wf()
        &&& forall|k: u64|
            #[trigger] self.pooling@.contains_key(k) ==> self.con.admits(self.pooling@[k])
                && self.pooling@[k].sid() == k
    }

    /// How many submitted transactions can wait unopened.
    pub closed spec fn cap(&self) -> int {
        self.capacity as int
    }

    /// The admission queue contents.
    pub closed spec fn queued(&self) -> Seq<T> {
        self.queue@
    }

    /// The outputs recorded so far, by id.
    pub closed spec fn outputs(&self) -> Map<u64, Option<T::Out>> {
        self.results@
    }

    /// Whether the service is accepting submissions.
    pub closed spec fn is_started(&self) -> bool {
        self.started
    }

    /// The failure reports accumulated so far.
    pub closed spec fn fail_count(&self) -> int {
        self.failures@.len() as int
    }

    /// The scheduling state of the service.
    pub closed spec fn smodel(&self) -> SvcModel<T, T::Out> {
        SvcModel {
            queued: self.queue@,
            pooled: self.pooling@,
            outputs: self.results@,
            fails: self.failures@.len() as int,
        }
    }

    /// A new service over `workers` logical workers: the queue holds the
    /// worker count plus a little slack.
    pub fn new(workers: usize, con: Con, dur: Dur) -> (r: Self)
        requires
            con.inv(),
            dur.inv(),
            workers <= usize::MAX - 4,
        ensures
            r.wf(),
            r.cap() == workers + 4,
            r.queued() == Seq::<T>::empty(),
            r.outputs() == Map::<u64, Option<T::Out>>::empty(),
            !r.is_started(),
            r.fail_count() == 0,
    {
        StepService {
            con,
            dur,
            capacity: workers + 4,
            queue: Vec::new(),
            pooling: VecMap::new(),
            results: VecMap::new(),
            started: false,
            failures: Vec::new(),
            phan: PhantomData,
        }
    }

    /// Start accepting submissions.
    pub fn start(&mut self) -> (r: Result<(), MThreadServiceError<T>>)
        requires
            old(self).wf(),
        ensures
            final(self).wf(),
            final(self).is_started(),
            r is Ok,
            final(self).fail_count() == old(self).fail_count(),
    {
        self.started = true;
        Ok(())
    }

    /// Close the service: any worker failures accumulated so far are
    /// reported once and drained, so a second close reports none.
    pub fn close(&mut self) -> (r: Result<(), MThreadServiceError<T>>)
        requires
            old(self).wf(),
        ensures
            final(self).wf(),
            !final(self).is_started(),
            final(self).fail_count() == 0,
            old(self).fail_count() == 0 <==> r is Ok,
    {
        self.started = false;
        let mut report: Vec<String> = Vec::new();
        core::mem::swap(&mut report, &mut self.failures);
        if report.len() == 0 {
            Ok(())
        } else {
            Err(MThreadServiceError::ShutdownErrorReport(report))
        }
    }

    /// Submit a transaction: rejected when the service is not started, and
    /// handed back untouched when the bounded queue is full.
    pub fn put(&mut self, t: T) -> (r: Result<(), MThreadServiceError<T>>)
        requires
            old(self).wf(),
        ensures
            final(self).wf(),
            (if !old(self).is_started() {
                r == Err::<(), MThreadServiceError<T>>(MThreadServiceError::NoSenderOpen)
                    && final(self).queued() == old(self).queued()
            } else if old(self).queued().len() >= old(self).cap() {
                r == Err::<(), MThreadServiceError<T>>(MThreadServiceError::SendError(t))
                    && final(self).queued() == old(self).queued()
            } else {
                r is Ok && final(self).queued() == old(self).queued().push(t)
            }),
            final(self).outputs() == old(self).outputs(),
            final(self).cap() == old(self).cap(),
            final(self).is_started() == old(self).is_started(),
    {
        if !self.started {
            return Err(MThreadServiceError::NoSenderOpen);
        }
        if self.queue.len() >= self.capacity {
            return Err(MThreadServiceError::SendError(t));
        }
        self.queue.push(t);
        Ok(())
    }

    /// Retrieve and take the output of transaction `i`; while it has not
    /// closed, the pending condition is reported instead.
    pub fn get(&mut self, i: u64) -> (r: Result<Option<T::Out>, MThreadServiceError<T>>)
        requires
            old(self).wf(),
        ensures
            final(self).wf(),
            (if old(self).outputs().contains_key(i) {
                r == Ok::<Option<T::Out>, MThreadServiceError<T>>(old(self).outputs()[i])
                    && final(self).outputs() == old(self).outputs().remove(i)
            } else {
                r == Err::<Option<T::Out>, MThreadServiceError<T>>(MThreadServiceError::TxPending)
                    && final(self).outputs() == old(self).outputs()
            }),
    {
        match self.results.remove(i) {
            Some(out) => Ok(out),
            None => Err(MThreadServiceError::TxPending),
        }
    }

    /// Drive the service for at most `fuel` protocol steps: pull submitted
    /// transactions, open them, and repeatedly dispatch the lowest-id
    /// pooled transaction's events through the protocol, recording outputs.
    /// A protocol error is recorded as a worker failure and surfaces only
    /// at close time.
    #[verifier::loop_isolation(false)]
    pub fn run(&mut self, fuel: u64)
        requires
            old(self).wf(),
        ensures
            final(self).wf(),
            final(self).is_started() == old(self).is_started(),
            final(self).cap() == old(self).cap(),
            old(self).outputs().dom().subset_of(final(self).outputs().dom()),
            final(self).queued() == old(self).queued().skip(
                (if fuel <= old(self).queued().len() {
                    fuel as int
                } else {
                    old(self).queued().len() as int
                }),
            ),
            exists|tr: Seq<SvcModel<T, T::Out>>|
                {
                    &&& #[trigger] tr.len() >= 1
                    &&& tr.len() <= fuel + 1
                    &&& tr[0] == old(self).smodel()
                    &&& tr.last() == final(self).smodel()
                    &&& (forall|i: int|
                        0 <= i < tr.len() - 1 ==> svc_step::<T, V, T::Out>(
                            #[trigger] tr[i],
                            tr[i + 1],
                        ))
                    &&& (tr.len() == fuel + 1 || (tr.last().queued.len() == 0 && tr.last().pooled
                        == Map::<u64, T>::empty()))
                },
    {
        let ghost q0 = self.queue@;
        let ghost m0 = self.smodel();
        let ghost mut tr: Seq<SvcModel<T, T::Out>> = seq![m0];
        let mut steps: u64 = 0;
        while steps < fuel
            invariant
                self.wf(),
                steps <= fuel,
                self.is_started() == old(self).is_started(),
                self.cap() == old(self).cap(),
                old(self).outputs().dom().subset_of(self.outputs().dom()),
                self.queue@ == q0.skip(
                    (if steps <= q0.len() {
                        steps as int
                    } else {
                        q0.len() as int
                    }),
                ),
                tr.len() == steps + 1,
                tr[0] == m0,
                tr.last() == self.smodel(),
                forall|i: int|
                    0 <= i < tr.len() - 1 ==> svc_step::<T, V, T::Out>(
                        #[trigger] tr[i],
                        tr[i + 1],
                    ),
            decreases fuel - steps,
        {
            let ghost pre = self.smodel();
            let ghost prev = tr;
            steps = steps + 1;
            // admit one submitted transaction, if any
            if self.queue.len() > 0 {
                let mut txn = self.queue.remove(0);
                proof {
                    assert(self.queue@ =~= pre.queued.drop_first());
                    assert(self.queue@ =~= q0.skip(
                        (if steps <= q0.len() {
                            steps as int
                        } else {
                            q0.len() as int
                        }),
                    ));
                }
                match self.con.open(&mut txn, &self.dur) {
                    Ok(_) => {
                        let ghost t2g = txn;
                        let id = txn.id();
                        self.pooling.insert(id, txn);
                        proof {
                            assert(self.smodel().pooled == pre.pooled.insert(t2g.sid(), t2g));
                            assert(svc_step::<T, V, T::Out>(pre, self.smodel()));
                        }
                    },
                    Err(_) => {
                        self.failures.push("protocol open failure".to_string());
                        proof {
                            assert(self.smodel().fails == pre.fails + 1);
                            assert(svc_step::<T, V, T::Out>(pre, self.smodel()));
                        }
                    },
                }
                proof {
                    tr = tr.push(self.smodel());
                    assert forall|i: int|
                        0 <= i < tr.len() - 1 implies svc_step::<T, V, T::Out>(
                        #[trigger] tr[i],
                        tr[i + 1],
                    ) by {
                        if i < prev.len() - 1 {
                            assert(tr[i] == prev[i]);
                            assert(tr[i + 1] == prev[i + 1]);
                        } else {
                            assert(tr[i] == pre);
                            assert(tr[i + 1] == self.smodel());
                        }
                    }
                }
                continue ;
            }
            // drive the lowest-id pooled transaction one event
            let next_id = match self.pooling.min_key() {
                Some(k) => k,
                None => {
                    proof {
                        assert(self.pooling@ =~= Map::<u64, T>::empty());
                        assert(q0.skip(
                            (if steps - 1 <= q0.len() {
                                steps - 1
                            } else {
                                q0.len() as int
                            }),
                        ).len() == 0);
                        assert(q0.len() <= steps - 1);
                        assert(self.queue@ =~= q0.skip(
                            (if fuel <= q0.len() {
                                fuel as int
                            } else {
                                q0.len() as int
                            }),
                        ));
                        assert(tr.last().queued.len() == 0);
                        assert(tr.last().pooled == Map::<u64, T>::empty());
                    }
                    return ;
                },
            };
            let txn = match self.pooling.remove(next_id) {
                Some(t) => t,
                None => {
                    proof {
                        assert(false);
                    }
                    return ;
                },
            };
            let ghost txng = txn;
            let tid = txn.id();
            proof {
                self.con.admits_go(txn);
                assert(txng.sid() == next_id);
            }
            match txn.go() {
                RWClosure::Op(t) => {
                    let t2 = t.op();
                    let ghost t2g = t2;
                    let id2 = t2.id();
                    self.pooling.insert(id2, t2);
                    proof {
                        assert(self.smodel().pooled == pre.pooled.remove(next_id).insert(
                            t2g.sid(),
                            t2g,
                        ));
                        assert(svc_step::<T, V, T::Out>(pre, self.smodel()));
                    }
                },
                RWClosure::Rd(t, prp) => {
                    match self.con.rd(t, prp, &self.dur) {
                        Ok(Some(t2)) => {
                            let ghost t2g = t2;
                            let id2 = t2.id();
                            self.pooling.insert(id2, t2);
                            proof {
                                assert(self.smodel().pooled == pre.pooled.remove(next_id).insert(
                                    t2g.sid(),
                                    t2g,
                                ));
                                assert(svc_step::<T, V, T::Out>(pre, self.smodel()));
                            }
                        },
                        Ok(None) => {
                            proof {
                                assert(svc_step::<T, V, T::Out>(pre, self.smodel()));
                            }
                        },
                        Err(_) => {
                            self.failures.push("protocol read failure".to_string());
                            proof {
                                assert(svc_step::<T, V, T::Out>(pre, self.smodel()));
                            }
                        },
                    }
                },
                RWClosure::Wr(t, m) => {
                    match self.con.wr(t, m, &mut self.dur) {
                        Ok(Some(t2)) => {
                            let ghost t2g = t2;
                            let id2 = t2.id();
                            self.pooling.insert(id2, t2);
                            proof {
                                assert(self.smodel().pooled == pre.pooled.remove(next_id).insert(
                                    t2g.sid(),
                                    t2g,
                                ));
                                assert(svc_step::<T, V, T::Out>(pre, self.smodel()));
                            }
                        },
                        Ok(None) => {
                            proof {
                                assert(svc_step::<T, V, T::Out>(pre, self.smodel()));
                            }
                        },
                        Err(_) => {
                            self.failures.push("protocol write failure".to_string());
                            proof {
                                assert(svc_step::<T, V, T::Out>(pre, self.smodel()));
                            }
                        },
                    }
                },
                RWClosure::Cl(t, end) => {
                    match self.con.done(t, end, &mut self.dur) {
                        Ok((nxt, out)) => {
                            let ghost og = out;
                            match out {
                                Some(o) => {
                                    self.results.insert(tid, o);
                                },
                                None => (),
                            }
                            match nxt {
                                Some(t2) => {
                                    let ghost t2g = t2;
                                    let id2 = t2.id();
                                    self.pooling.insert(id2, t2);
                                    proof {
                                        assert(self.smodel().pooled == pre.pooled.remove(
                                            next_id,
                                        ).insert(t2g.sid(), t2g));
                                        assert(svc_step::<T, V, T::Out>(pre, self.smodel()));
                                    }
                                },
                                None => {
                                    proof {
                                        assert(svc_step::<T, V, T::Out>(pre, self.smodel()));
                                    }
                                },
                            }
                        },
                        Err(_) => {
                            self.failures.push("protocol close failure".to_string());
                            proof {
                                assert(svc_step::<T, V, T::Out>(pre, self.smodel()));
                            }
                        },
                    }
                },
            }
            proof {
                assert(svc_step::<T, V, T::Out>(pre, self.smodel()));
                tr = tr.push(self.smodel());
                assert forall|i: int|
                    0 <= i < tr.len() - 1 implies svc_step::<T, V, T::Out>(
                    #[trigger] tr[i],
                    tr[i + 1],
                ) by {
                    if i < prev.len() - 1 {
                        assert(tr[i] == prev[i]);
                        assert(tr[i + 1] == prev[i + 1]);
                    } else {
                        assert(tr[i] == pre);
                        assert(tr[i + 1] == self.smodel());
                    }
                }
                assert(self.queue@ =~= q0.skip(
                    (if steps <= q0.len() {
                        steps as int
                    } else {
                        q0.len() as int
                    }),
                ));
            }
        }
    }
}

impl<T, V, Con, Dur> TxService<T, V> for StepService<T, V, Con, Dur> where
    T: Tx<V>,
    Dur: RWDurable<V, T>,
    Con: RWControl<V, T, Dur>,
 {
    type Err = MThreadServiceError<T>;

    open spec fn inv(&self) -> bool {
        self.wf()
    }

    fn start(&mut self) -> (r: Result<(), MThreadServiceError<T>>) {
        self.start()
    }

    fn close(&mut self) -> (r: Result<(), MThreadServiceError<T>>) {
        self.close()
    }

    fn put(&mut self, t: T) -> (r: Result<(), MThreadServiceError<T>>) {
        self.put(t)
    }

    fn get(&mut self, i: u64) -> (r: Result<Option<T::Out>, MThreadServiceError<T>>) {
        self.get(i)
    }
}

} // verus!
