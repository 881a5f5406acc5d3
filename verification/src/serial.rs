//! The serial protocol: strict admission-order execution.  A transaction
//! proceeds only when its id is exactly the successor of the progress
//! watermark; everyone else is parked.  Writes are buffered per id and
//! flushed to the durability backend atomically at close time, so partial
//! writes of an aborted transaction never reach storage.

use vstd::prelude::*;

use crate::constraint::Mapper;
use crate::rw::{RWControl, RWDurable};
use crate::tx::{End, Tx};
use crate::vecmap::VecMap;

verus! {

/// The strict-order protocol state.
pub struct Serial<T, V> where T: Tx<V> {
    prog: u64,
    pool: VecMap<T>,
    waiting: VecMap<VecMap<Option<V>>>,
}

/// Buffering a batch of pairs over an id's waiting map.
pub open spec fn buffer_fold<V>(w: Map<u64, Option<V>>, ps: Seq<(u64, Option<V>)>) -> Map<
    u64,
    Option<V>,
>
    decreases ps.len(),
{
    if ps.len() == 0 {
        w
    } else {
        buffer_fold(w, ps.drop_last()).insert(ps.last().0, ps.last().1)
    }
}

impl<T, V> Serial<T, V> where T: Tx<V>, V: Copy {
    pub closed spec fn wf(&self) -> bool {
        &&& self.pool.wf()
        &&& self.waiting.wf()
        &&& forall|k: u64| #[trigger] self.pool@.contains_key(k) ==> self.pool@[k].sid() == k
        &&& forall|k: u64|
            #[trigger] self.waiting@.contains_key(k) ==> self.waiting@[k].wf()
    }

    /// The id of the last transaction that fully committed.
    pub closed spec fn progress(&self) -> u64 {
        self.prog
    }

    /// The parked transactions, by id.
    pub closed spec fn parked(&self) -> Map<u64, T> {
        self.pool@
    }

    /// The per-id write buffers awaiting their atomic flush.
    pub closed spec fn waiting_of(&self) -> Map<u64, VecMap<Option<V>>> {
        self.waiting@
    }

    pub fn new() -> (r: Self)
        ensures
            r.wf(),
            r.progress() == 0,
            r.parked() == Map::<u64, T>::empty(),
    {
        Serial { prog: 0, pool: VecMap::new(), waiting: VecMap::new() }
    }

    /// Park a transaction until its turn.
    fn put(&mut self, txn: T)
        requires
            old(self).wf(),
        ensures
            final(self).wf(),
            final(self).parked() == old(self).parked().insert(txn.sid(), txn),
            final(self).progress() == old(self).progress(),
            final(self).waiting@ == old(self).waiting@,
    {
        let id = txn.id();
        self.pool.insert(id, txn);
    }

    /// The parked transaction whose turn has come, if any.
    fn get(&mut self) -> (r: Option<T>)
        requires
            old(self).wf(),
        ensures
            final(self).wf(),
            final(self).progress() == old(self).progress(),
            final(self).waiting@ == old(self).waiting@,
            (if old(self).progress() < u64::MAX && old(self).parked().contains_key(
                (old(self).progress() + 1) as u64,
            ) {
                r == Some(old(self).parked()[(old(self).progress() + 1) as u64])
                    && final(self).parked() == old(self).parked().remove(
                    (old(self).progress() + 1) as u64,
                )
            } else {
                r is None && final(self).parked() == old(self).parked()
            }),
    {
        if self.prog == u64::MAX {
            return None;
        }
        let nxt = self.prog + 1;
        self.pool.remove(nxt)
    }

    /// Advance the watermark by one.
    fn proceed(&mut self)
        requires
            old(self).wf(),
            old(self).progress() < u64::MAX,
        ensures
            final(self).wf(),
            final(self).progress() == old(self).progress() + 1,
            final(self).parked() == old(self).parked(),
            final(self).waiting@ == old(self).waiting@,
    {
        self.prog = self.prog + 1;
    }

    /// The id whose turn it is, saturating at the largest id.
    fn next_tid(&self) -> (r: u64)
        ensures
            r == (if self.progress() < u64::MAX {
                (self.progress() + 1) as u64
            } else {
                u64::MAX
            }),
    {
        if self.prog == u64::MAX {
            u64::MAX
        } else {
            self.prog + 1
        }
    }
}

impl<T, V, D> RWControl<V, T, D> for Serial<T, V> where
    T: Tx<V>,
    V: Copy,
    D: RWDurable<V, T>,
    T::Mapping: Mapper<u64, V>,
 {
    type Err = ();

    open spec fn inv(&self) -> bool {
        self.wf()
    }

    open spec fn admits(&self, txn: T) -> bool {
        true
    }

    proof fn admits_go(&self, txn: T) {
    }

    /// Admit through the backend hook first; on its success an empty write
    /// buffer is installed for the id.
    fn open(&mut self, txn: &mut T, dur: &D) -> (r: Result<(), ()>)
        ensures
            *final(txn) == *old(txn),
            final(self).progress() == old(self).progress(),
            final(self).parked() == old(self).parked(),
            (match dur.s_open_res(old(txn)) {
                Ok(u) => r is Ok && (exists|w: VecMap<Option<V>>|
                    {
                        &&& #[trigger] w@ == Map::<u64, Option<V>>::empty()
                        &&& w.wf()
                        &&& final(self).waiting_of() == old(self).waiting_of().insert(
                            old(txn).sid(),
                            w,
                        )
                    }),
                Err(e) => r == Err::<(), ()>(()) && final(self).waiting_of() == old(
                    self,
                ).waiting_of(),
            }),
    {
        match dur.open(txn) {
            Err(_) => Err(()),
            Ok(_) => {
                let id = txn.id();
                let w: VecMap<Option<V>> = VecMap::new();
                self.waiting.insert(id, w);
                Ok(())
            },
        }
    }

    /// Serve a read from durable storage when it is the caller's turn;
    /// otherwise park it and hand back the transaction whose turn it is.
    fn rd(&mut self, txn: T, prp: T::Prp, dur: &D) -> (r: Result<Option<T>, ()>)
        ensures
            ({
                let turn = if old(self).progress() < u64::MAX {
                    (old(self).progress() + 1) as u64
                } else {
                    u64::MAX
                };
                if txn.sid() != turn {
                    let parked1 = old(self).parked().insert(txn.sid(), txn);
                    &&& final(self).progress() == old(self).progress()
                    &&& final(self).waiting_of() == old(self).waiting_of()
                    &&& match r {
                        Ok(o) => if old(self).progress() < u64::MAX && parked1.contains_key(
                            turn,
                        ) {
                            o == Some(parked1[turn]) && final(self).parked() == parked1.remove(
                                turn,
                            )
                        } else {
                            o is None && final(self).parked() == parked1
                        },
                        Err(_) => false,
                    }
                } else {
                    &&& final(self).progress() == old(self).progress()
                    &&& final(self).parked() == old(self).parked()
                    &&& final(self).waiting_of() == old(self).waiting_of()
                    &&& match dur.s_rd(prp) {
                        Ok(m) => r == Ok::<Option<T>, ()>(Some(txn.s_rd(m))),
                        Err(_) => r == Err::<Option<T>, ()>(()),
                    }
                }
            }),
    {
        let turn = self.next_tid();
        if txn.id() != turn {
            self.put(txn);
            Ok(self.get())
        } else {
            match dur.rd(prp) {
                Err(_) => Err(()),
                Ok(m) => Ok(Some(txn.rd(m))),
            }
        }
    }

    /// Buffer the writes of the transaction whose turn it is; park anyone
    /// else.
    #[verifier::loop_isolation(false)]
    fn wr(&mut self, txn: T, mapv: T::Mapping, dur: &mut D) -> (r: Result<Option<T>, ()>)
        ensures
            ({
                let turn = if old(self).progress() < u64::MAX {
                    (old(self).progress() + 1) as u64
                } else {
                    u64::MAX
                };
                if txn.sid() != turn {
                    let parked1 = old(self).parked().insert(txn.sid(), txn);
                    &&& final(self).progress() == old(self).progress()
                    &&& final(self).waiting_of() == old(self).waiting_of()
                    &&& *final(dur) == *old(dur)
                    &&& match r {
                        Ok(o) => if old(self).progress() < u64::MAX && parked1.contains_key(
                            turn,
                        ) {
                            o == Some(parked1[turn]) && final(self).parked() == parked1.remove(
                                turn,
                            )
                        } else {
                            o is None && final(self).parked() == parked1
                        },
                        Err(_) => false,
                    }
                } else {
                    let b0 = if old(self).waiting_of().contains_key(txn.sid()) {
                        old(self).waiting_of()[txn.sid()]@
                    } else {
                        Map::<u64, Option<V>>::empty()
                    };
                    &&& r == Ok::<Option<T>, ()>(Some(txn.s_wr()))
                    &&& final(self).progress() == old(self).progress()
                    &&& final(self).parked() == old(self).parked()
                    &&& *final(dur) == *old(dur)
                    &&& exists|w2: VecMap<Option<V>>|
                        {
                            &&& #[trigger] w2@ == buffer_fold(b0, mapv.s_pairs())
                            &&& w2.wf()
                            &&& final(self).waiting_of() == old(self).waiting_of().insert(
                                txn.sid(),
                                w2,
                            )
                        }
                }
            }),
    {
        let turn = self.next_tid();
        if txn.id() != turn {
            self.put(txn);
            Ok(self.get())
        } else {
            let tid = txn.id();
            let mut buf = match self.waiting.remove(tid) {
                Some(w) => w,
                None => VecMap::new(),
            };
            let ps = mapv.into_mapping();
            let ghost pseq = ps@;
            let ghost b0 = buf@;
            let plen = ps.len();
            let mut i: usize = 0;
            while i < plen
                invariant
                    i <= plen,
                    buf.wf(),
                    buf@ == buffer_fold(b0, pseq.take(i as int)),
                decreases plen - i,
            {
                proof {
                    assert(pseq.take(i as int + 1).drop_last() =~= pseq.take(i as int));
                    assert(pseq.take(i as int + 1).last() == pseq[i as int]);
                }
                let p = ps[i];
                buf.insert(p.0, p.1);
                i = i + 1;
            }
            proof {
                assert(pseq.take(plen as int) =~= pseq);
            }
            let ghost wmid = self.waiting@;
            proof {
                assert(wmid =~= old(self).waiting_of().remove(tid));
            }
            self.waiting.insert(tid, buf);
            proof {
                assert(self.waiting@ =~= old(self).waiting_of().insert(tid, buf));
                assert(buf@ == buffer_fold(b0, pseq));
            }
            Ok(Some(txn.wr()))
        }
    }

    /// Flush the buffered writes and finalize when it is the caller's
    /// turn: the watermark advances by exactly one, to the caller's id.
    /// On Ready the whole buffer reaches the backend atomically before the
    /// close hook; an abort discards the buffer without touching storage.
    #[verifier::loop_isolation(false)]
    fn done(&mut self, txn: T, end: End, dur: &mut D) -> (r: Result<
        (Option<T>, Option<Option<T::Out>>),
        (),
    >)
        ensures
            ({
                let turn = if old(self).progress() < u64::MAX {
                    (old(self).progress() + 1) as u64
                } else {
                    u64::MAX
                };
                if txn.sid() != turn {
                    let parked1 = old(self).parked().insert(txn.sid(), txn);
                    &&& final(self).progress() == old(self).progress()
                    &&& final(self).waiting_of() == old(self).waiting_of()
                    &&& *final(dur) == *old(dur)
                    &&& match r {
                        Ok((o, out)) => out is None && (if old(self).progress() < u64::MAX
                            && parked1.contains_key(turn) {
                            o == Some(parked1[turn]) && final(self).parked() == parked1.remove(
                                turn,
                            )
                        } else {
                            o is None && final(self).parked() == parked1
                        }),
                        Err(_) => false,
                    }
                } else {
                    let tid = txn.sid();
                    let bufseq = if old(self).waiting_of().contains_key(tid) {
                        old(self).waiting_of()[tid].seq()
                    } else {
                        Seq::<(u64, Option<V>)>::empty()
                    };
                    let flush = <T::Mapping as Mapper<u64, V>>::s_from(bufseq);
                    let hook_ok = (match final(dur).s_done_res(&txn, end) {
                        Ok(u) => true,
                        Err(e) => false,
                    });
                    let stalled = final(self).progress() == old(self).progress()
                        && final(self).parked() == old(self).parked() && r is Err;
                    let committed = ({
                        &&& old(self).progress() < u64::MAX
                        &&& final(self).progress() == turn
                        &&& match r {
                            Ok((o, out)) => out == Some(txn.s_cl()) && (if turn < u64::MAX
                                && old(self).parked().contains_key((turn + 1) as u64) {
                                o == Some(old(self).parked()[(turn + 1) as u64])
                                    && final(self).parked() == old(self).parked().remove(
                                    (turn + 1) as u64,
                                )
                            } else {
                                o is None && final(self).parked() == old(self).parked()
                            }),
                            Err(_) => false,
                        }
                    });
                    &&& final(self).waiting_of() == old(self).waiting_of().remove(tid)
                    &&& if end is Ready {
                        // the whole buffer is flushed atomically before the hook
                        &&& final(dur).model() == old(dur).s_wr_model(&txn, flush)
                        &&& match old(dur).s_wr_res(&txn, flush) {
                            Err(e) => stalled,
                            Ok(u) => if !hook_ok || old(self).progress() == u64::MAX {
                                stalled
                            } else {
                                committed
                            },
                        }
                    } else {
                        // an abort discards the buffer whole: nothing reaches storage
                        &&& *final(dur) == *old(dur)
                        &&& if !hook_ok || old(self).progress() == u64::MAX {
                            stalled
                        } else {
                            committed
                        }
                    }
                }
            }),
    {
        let turn = self.next_tid();
        if txn.id() != turn {
            self.put(txn);
            Ok((self.get(), None))
        } else {
            let tid = txn.id();
            let buf = match self.waiting.remove(tid) {
                Some(w) => w,
                None => VecMap::new(),
            };
            proof {
                assert(self.waiting@ =~= old(self).waiting_of().remove(tid));
                if old(self).waiting_of().contains_key(tid) {
                    assert(buf.seq() == old(self).waiting_of()[tid].seq());
                } else {
                    assert(buf.seq() =~= Seq::<(u64, Option<V>)>::empty());
                }
            }
            let ghost bufseq = buf.seq();
            let ready = match end {
                End::Ready => true,
                End::Abort => false,
            };
            if ready {
                let mut ps: Vec<(u64, Option<V>)> = Vec::new();
                let blen = buf.len();
                let mut i: usize = 0;
                while i < blen
                    invariant
                        i <= blen,
                        blen == bufseq.len(),
                        ps@ == bufseq.take(i as int),
                    decreases blen - i,
                {
                    let p = buf.get_pair(i);
                    ps.push((p.0, p.1));
                    proof {
                        assert(ps@ =~= bufseq.take(i as int + 1));
                    }
                    i = i + 1;
                }
                proof {
                    assert(ps@ =~= bufseq);
                }
                match dur.wr(&txn, <T::Mapping as Mapper<u64, V>>::from_mapping(ps)) {
                    Err(_) => {
                        return Err(());
                    },
                    Ok(_) => (),
                }
            }
            match dur.done(&txn, end) {
                Err(_) => {
                    return Err(());
                },
                Ok(_) => (),
            }
            if self.prog == u64::MAX {
                return Err(());
            }
            self.proceed();
            Ok((self.get(), Some(txn.cl())))
        }
    }
}

} // verus!
