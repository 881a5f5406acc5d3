//! The speculative deterministic concurrency-control engine.
//!
//! Transactions read and write ahead of their commit turn against the
//! versioned table; conflicts are resolved by the id-priority rule and
//! repaired by cascading reset, and final commits advance the progress
//! watermark in strictly increasing, gapless id order.
//!
//! The engine is generic in how the auxiliary state is stored on the
//! wrapped transaction (`AuxStore`), which is the only difference between
//! its two published forms.

use vstd::prelude::*;

use crate::constraint::{Mapper, MaybeIndexer, TxCkpt};
use crate::kv_table::{
    spec_prune, spec_read, spec_unread, spec_unwlock, spec_unwrite, spec_wlock, spec_write,
    EntryModel, KVTable, KVTableErr,
};
use crate::rw::{RWControl, RWDurable};
use crate::tpool::{pool_pick, TPool};
use crate::twrap::{fresh_aux, Aux, AuxStore};
use crate::tx::{RWClosure, Tx};
use crate::vecmap::{VecMap, VecSet};
use crate::wrap::Wrap;

verus! {

/// The errors of the speculative engine.
#[derive(Debug)]
pub enum KVSparkleErr<E> {
    /// A durability-backend failure, which is fatal to the caller.
    External(E),
    /// The proposition cannot enumerate the keys it selects; only keyed
    /// reads are supported.
    Unsupported,
}

/// The mathematical state of the engine.
pub ghost struct CoreModel<W, V, C> {
    /// The versioned table.
    pub table: Map<u64, EntryModel<V>>,
    /// Suspended transactions, by id.
    pub todo: Map<u64, W>,
    /// Transactions waiting only for their commit turn, by id.
    pub done: Map<u64, W>,
    /// Ids marked for cascading rollback.
    pub reset: Set<u64>,
    /// The checkpoint of each admitted transaction.
    pub ckpts: Map<u64, C>,
    /// The id of the last transaction that fully committed.
    pub progress: u64,
    /// The largest id submitted so far.
    pub last: u64,
}

/// The ids strictly above `b`.
pub open spec fn gt_set(b: u64) -> Set<u64> {
    Set::new(|v: u64| v > b)
}

/// Undoing every recorded read of `tid`, in read-set order.
pub open spec fn unread_all<V>(
    t: Map<u64, EntryModel<V>>,
    tid: u64,
    rds: Seq<(u64, (Option<V>, u64))>,
) -> Map<u64, EntryModel<V>>
    decreases rds.len(),
{
    if rds.len() == 0 {
        t
    } else {
        let t2 = unread_all(t, tid, rds.drop_last());
        spec_unread(t2, rds.last().0, tid, rds.last().1.1)
    }
}

/// Undoing every write of `tid`: published versions are removed, with their
/// stale readers beyond the progress watermark folded into the reset set;
/// unpublished writes merely release their lock.
pub open spec fn unpub_all<V>(
    t: Map<u64, EntryModel<V>>,
    rs: Set<u64>,
    progress: u64,
    tid: u64,
    wrs: Seq<(u64, (Option<V>, bool))>,
) -> (Map<u64, EntryModel<V>>, Set<u64>)
    decreases wrs.len(),
{
    if wrs.len() == 0 {
        (t, rs)
    } else {
        let p = unpub_all(t, rs, progress, tid, wrs.drop_last());
        let key = wrs.last().0;
        let ispub = wrs.last().1.1;
        if ispub {
            let q = spec_unwrite(p.0, key, tid);
            (q.0, p.1.union(q.1.intersect(gt_set(progress))))
        } else {
            (spec_unwlock(p.0, key, tid), p.1)
        }
    }
}

/// What a forced reset does: all reads and writes of the transaction are
/// undone, its auxiliary state is cleared, it is rewound to its checkpoint
/// and refiled under "todo", and its own reset mark is dropped.
pub open spec fn reset_rel<T: Tx<V> + TxCkpt, V, A: AuxStore<V>>(
    m: CoreModel<Wrap<T, A>, V, T::Ckpt>,
    txn: Wrap<T, A>,
    m2: CoreModel<Wrap<T, A>, V, T::Ckpt>,
) -> bool {
    let tid = txn.sid();
    let aux = txn.ax.s_aux();
    let t2 = unread_all(m.table, tid, aux.rdset.seq());
    let tr = unpub_all(t2, m.reset, m.progress, tid, aux.wrset.seq());
    exists|w2: Wrap<T, A>|
        {
            &&& w2.tx == (if m.ckpts.contains_key(tid) {
                txn.tx.with_ckpt(m.ckpts[tid])
            } else {
                txn.tx
            })
            &&& fresh_aux(w2.ax.s_aux())
            &&& m2 == (CoreModel {
                table: tr.0,
                todo: m.todo.insert(w2.sid(), w2),
                done: m.done,
                reset: tr.1.remove(tid),
                ckpts: m.ckpts,
                progress: m.progress,
                last: m.last,
            })
        }
}

/// What fetching the next runnable transaction does to the pools.
pub open spec fn get_next_rel<W: Tx<V>, V, C>(
    m: CoreModel<W, V, C>,
    m2: CoreModel<W, V, C>,
    r: Option<W>,
) -> bool {
    &&& m2.table == m.table
    &&& m2.reset == m.reset
    &&& m2.ckpts == m.ckpts
    &&& m2.progress == m.progress
    &&& m2.last == m.last
    &&& if m.progress == u64::MAX {
        r is None && m2.todo == m.todo && m2.done == m.done
    } else {
        pool_pick((m.todo), (m.done), (m.progress + 1) as u64, (m2.todo), (m2.done), r)
    }
}

/// The speculative deterministic engine.
pub struct KVCore<T, V, A> where T: Tx<V> + TxCkpt, V: Copy, A: AuxStore<V> {
    // the key value table
    table: KVTable<V>,
    // pending transactions
    tpool: TPool<Wrap<T, A>, V>,
    // the transactions that need a roll back
    reset: VecSet,
    // the checkpoints of the admitted transactions
    ckpts: VecMap<T::Ckpt>,
    // the last committed transaction
    progress: u64,
    // the last submitted transaction
    last_tid: u64,
}

impl<T, V, A> KVCore<T, V, A> where T: Tx<V> + TxCkpt, V: Copy, A: AuxStore<V> {
    pub closed spec fn wf(&self) -> bool {
        &&& self.table.wf()
        &&& self.tpool.wf()
        &&& self.reset.wf()
        &&& self.ckpts.wf()
        &&& forall|k: u64|
            #[trigger] self.tpool.todos().contains_key(k)
                ==> self.tpool.todos()[k].ax.s_aux().wf()
        &&& forall|k: u64|
            #[trigger] self.tpool.dones().contains_key(k)
                ==> self.tpool.dones()[k].ax.s_aux().wf()
    }

    /// The engine state as a mathematical model.
    pub closed spec fn model(&self) -> CoreModel<Wrap<T, A>, V, T::Ckpt> {
        CoreModel {
            table: self.table@,
            todo: self.tpool.todos(),
            done: self.tpool.dones(),
            reset: self.reset@,
            ckpts: self.ckpts@,
            progress: self.progress,
            last: self.last_tid,
        }
    }

    /// A fresh engine: empty table and pools, watermark at zero.
    pub fn new() -> (r: Self)
        ensures
            r.wf(),
            r.model() == (CoreModel {
                table: Map::<u64, EntryModel<V>>::empty(),
                todo: Map::<u64, Wrap<T, A>>::empty(),
                done: Map::<u64, Wrap<T, A>>::empty(),
                reset: Set::<u64>::empty(),
                ckpts: Map::<u64, T::Ckpt>::empty(),
                progress: 0u64,
                last: 0u64,
            }),
    {
        KVCore {
            table: KVTable::new(),
            tpool: TPool::new(),
            reset: VecSet::new(),
            ckpts: VecMap::new(),
            progress: 0,
            last_tid: 0,
        }
    }

    /// The id of the last fully committed transaction.
    pub fn progress_of(&self) -> (r: u64)
        ensures
            r == self.model().progress,
    {
        self.progress
    }

    /// Fetch the next runnable transaction for the current watermark.
    fn get_next(&mut self) -> (r: Option<Wrap<T, A>>)
        requires
            old(self).wf(),
        ensures
            final(self).wf(),
            get_next_rel(old(self).model(), final(self).model(), r),
            (match r {
                Some(t) => t.ax.s_aux().wf(),
                None => true,
            }),
    {
        if self.progress == u64::MAX {
            return None;
        }
        self.tpool.get_prog(self.progress + 1)
    }
}

impl<T, V, A> KVCore<T, V, A> where T: Tx<V> + TxCkpt, V: Copy, A: AuxStore<V> {
    /// Admit a transaction: remember the largest submitted id, store a
    /// checkpoint of its initial state, and give the durability backend its
    /// best-effort hook.
    pub fn open<D: RWDurable<V, Wrap<T, A>>>(&mut self, txn: &mut Wrap<T, A>, dur: &D) -> (r:
        Result<(), KVSparkleErr<D::Err>>)
        requires
            old(self).wf(),
            dur.inv(),
        ensures
            final(self).wf(),
            final(txn).tx == old(txn).tx,
            fresh_aux(final(txn).ax.s_aux()),
            r is Ok,
            exists|c: T::Ckpt|
                (old(txn).tx.with_ckpt(c) == old(txn).tx) && final(self).model() == (CoreModel {
                    ckpts: old(self).model().ckpts.insert(old(txn).sid(), c),
                    last: (if old(self).model().last >= old(txn).sid() {
                        old(self).model().last
                    } else {
                        old(txn).sid()
                    }),
                    ..old(self).model()
                }),
    {
        let tid = txn.id();
        if tid > self.last_tid {
            self.last_tid = tid;
        }
        let c = txn.tx.make();
        self.ckpts.insert(tid, c);
        txn.ax = A::from_aux(Aux::new());
        let _ = dur.open(txn);
        Ok(())
    }

    /// Roll a transaction back: undo its reads and writes (cascading the
    /// stale readers of removed versions into the reset set), clear its
    /// auxiliary state, rewind it to its checkpoint and refile it.
    #[verifier::rlimit(80)]
    #[verifier::loop_isolation(false)]
    fn reset(&mut self, txn: Wrap<T, A>)
        requires
            old(self).wf(),
        ensures
            final(self).wf(),
            reset_rel(old(self).model(), txn, final(self).model()),
    {
        let ghost m0 = self.model();
        let tid = txn.id();
        let Wrap { tx, ax } = txn;
        let mut tx = tx;
        let aux = A::into_aux(ax);
        let ghost rseq = aux.rdset.seq();
        let rlen = aux.rdset.len();
        let mut i: usize = 0;
        while i < rlen
            invariant
                i <= rlen,
                self.table.wf(),
                self.tpool.wf(),
                self.reset.wf(),
                self.ckpts.wf(),
                self.table@ == unread_all(m0.table, tid, rseq.take(i as int)),
                self.reset@ == m0.reset,
                self.tpool.todos() == m0.todo,
                self.tpool.dones() == m0.done,
                self.ckpts@ == m0.ckpts,
                self.progress == m0.progress,
                self.last_tid == m0.last,
            decreases rlen - i,
        {
            let p = aux.rdset.get_pair(i);
            proof {
                assert(rseq.take(i as int + 1).drop_last() =~= rseq.take(i as int));
                assert(rseq.take(i as int + 1).last() == rseq[i as int]);
            }
            self.table.unread(p.0, tid, p.1.1);
            i = i + 1;
        }
        proof {
            assert(rseq.take(rlen as int) =~= rseq);
        }
        let ghost t2 = self.table@;
        let ghost wseq = aux.wrset.seq();
        let wlen = aux.wrset.len();
        let mut j: usize = 0;
        while j < wlen
            invariant
                j <= wlen,
                self.table.wf(),
                self.tpool.wf(),
                self.reset.wf(),
                self.ckpts.wf(),
                self.table@ == unpub_all(t2, m0.reset, m0.progress, tid, wseq.take(j as int)).0,
                self.reset@ == unpub_all(t2, m0.reset, m0.progress, tid, wseq.take(j as int)).1,
                self.tpool.todos() == m0.todo,
                self.tpool.dones() == m0.done,
                self.ckpts@ == m0.ckpts,
                self.progress == m0.progress,
                self.last_tid == m0.last,
            decreases wlen - j,
        {
            let p = aux.wrset.get_pair(j);
            proof {
                assert(wseq.take(j as int + 1).drop_last() =~= wseq.take(j as int));
                assert(wseq.take(j as int + 1).last() == wseq[j as int]);
            }
            if p.1.1 {
                let vic = self.table.unwrite(p.0, tid);
                let ghost rs_mid = self.reset@;
                let ghost t_mid = self.table@;
                let ghost vseq = vic.seq();
                proof {
                    vic.lemma_view_seq();
                }
                let vlen = vic.len();
                let mut q: usize = 0;
                while q < vlen
                    invariant
                        q <= vlen,
                        self.reset.wf(),
                        self.reset@ == rs_mid.union(
                            vseq.take(q as int).to_set().intersect(gt_set(m0.progress)),
                        ),
                        self.table.wf(),
                        self.tpool.wf(),
                        self.ckpts.wf(),
                        self.table@ == t_mid,
                        self.tpool.todos() == m0.todo,
                        self.tpool.dones() == m0.done,
                        self.ckpts@ == m0.ckpts,
                        self.progress == m0.progress,
                        self.last_tid == m0.last,
                    decreases vlen - q,
                {
                    let v = vic.idx(q);
                    let ghost rs_cur = self.reset@;
                    if v > self.progress {
                        self.reset.insert(v);
                    }
                    proof {
                        assert(vseq.take(q as int + 1).drop_last() =~= vseq.take(q as int));
                        assert(vseq.take(q as int + 1).last() == vseq[q as int]);
                        assert forall|y: u64|
                            self.reset@.contains(y) <==> rs_mid.union(
                                vseq.take(q as int + 1).to_set().intersect(gt_set(m0.progress)),
                            ).contains(y) by {
                            if vseq.take(q as int + 1).to_set().contains(y) {
                                let jj = choose|jj: int|
                                    0 <= jj < vseq.take(q as int + 1).len() && #[trigger] vseq.take(
                                        q as int + 1,
                                    )[jj] == y;
                                if jj < q {
                                    assert(vseq.take(q as int)[jj] == y);
                                    assert(vseq.take(q as int).to_set().contains(y));
                                } else {
                                    assert(vseq[q as int] == y);
                                }
                            }
                            if vseq.take(q as int).to_set().contains(y) {
                                let jj = choose|jj: int|
                                    0 <= jj < vseq.take(q as int).len() && #[trigger] vseq.take(
                                        q as int,
                                    )[jj] == y;
                                assert(vseq.take(q as int + 1)[jj] == y);
                                assert(vseq.take(q as int + 1).to_set().contains(y));
                            }
                            if y == vseq[q as int] {
                                assert(vseq.take(q as int + 1)[q as int] == y);
                                assert(vseq.take(q as int + 1).to_set().contains(y));
                            }
                        }
                        assert(self.reset@ =~= rs_mid.union(
                            vseq.take(q as int + 1).to_set().intersect(gt_set(m0.progress)),
                        ));
                    }
                    q = q + 1;
                }
                proof {
                    assert(vseq.take(vlen as int) =~= vseq);
                    assert(vic@ == vseq.to_set());
                    assert(self.reset@ =~= rs_mid.union(vic@.intersect(gt_set(m0.progress))));
                }
            } else {
                self.table.unwlock(p.0, tid);
            }
            j = j + 1;
        }
        proof {
            assert(wseq.take(wlen as int) =~= wseq);
        }
        match self.ckpts.get(tid) {
            Some(c) => {
                let c2 = *c;
                tx.goto(c2);
            },
            None => (),
        }
        let w2 = Wrap { tx, ax: A::from_aux(Aux::new()) };
        self.tpool.put_todo(w2);
        self.reset.remove(tid);
        proof {
            let mfin = self.model();
            assert(fresh_aux(w2.ax.s_aux()));
            assert(mfin == (CoreModel {
                table: unpub_all(t2, m0.reset, m0.progress, tid, wseq).0,
                todo: m0.todo.insert(w2.sid(), w2),
                done: m0.done,
                reset: unpub_all(t2, m0.reset, m0.progress, tid, wseq).1.remove(tid),
                ckpts: m0.ckpts,
                progress: m0.progress,
                last: m0.last,
            }));
        }
    }
}

/// One pass over the keys a read selects: keys already touched are served
/// from the transaction's own write-set or read-set (read-your-own-writes),
/// the rest are read from the table, and a durability miss is flagged.
/// The components are the table, the read-set, the mapping pairs collected
/// (absent values are not reported), and the miss flag.
pub open spec fn rd_scan<V>(
    t: Map<u64, EntryModel<V>>,
    rd: Map<u64, (Option<V>, u64)>,
    wr: Map<u64, (Option<V>, bool)>,
    keys: Seq<u64>,
    tid: u64,
) -> (Map<u64, EntryModel<V>>, Map<u64, (Option<V>, u64)>, Seq<(u64, Option<V>)>, bool)
    decreases keys.len(),
{
    if keys.len() == 0 {
        (t, rd, Seq::empty(), false)
    } else {
        let p = rd_scan(t, rd, wr, keys.drop_last(), tid);
        let k = keys.last();
        if wr.contains_key(k) || p.1.contains_key(k) {
            let v = if wr.contains_key(k) {
                wr[k].0
            } else {
                p.1[k].0
            };
            (p.0, p.1, if v is Some {
                p.2.push((k, v))
            } else {
                p.2
            }, p.3)
        } else {
            let q = spec_read(p.0, k, tid);
            match q.1 {
                Ok(res) => (
                    q.0,
                    p.1.insert(k, res),
                    if res.0 is Some {
                        p.2.push((k, res.0))
                    } else {
                        p.2
                    },
                    p.3,
                ),
                Err(_) => (q.0, p.1, p.2, true),
            }
        }
    }
}

/// Folding the batch fetched from the durability backend into the read-set:
/// keys already touched are skipped, the rest are recorded at the zero
/// watermark.
pub open spec fn rd_durable<V>(
    rd: Map<u64, (Option<V>, u64)>,
    wr: Map<u64, (Option<V>, bool)>,
    dps: Seq<(u64, Option<V>)>,
    pairs: Seq<(u64, Option<V>)>,
) -> (Map<u64, (Option<V>, u64)>, Seq<(u64, Option<V>)>)
    decreases dps.len(),
{
    if dps.len() == 0 {
        (rd, pairs)
    } else {
        let p = rd_durable(rd, wr, dps.drop_last(), pairs);
        let k = dps.last().0;
        let v = dps.last().1;
        if wr.contains_key(k) || p.0.contains_key(k) {
            p
        } else {
            (p.0.insert(k, (v, 0)), if v is Some {
                p.1.push((k, v))
            } else {
                p.1
            })
        }
    }
}

/// What a read does, for every outcome of the durability backend.
pub open spec fn rd_rel<T, V, A, D>(
    m: CoreModel<Wrap<T, A>, V, T::Ckpt>,
    txn: Wrap<T, A>,
    prp: T::Prp,
    dur: D,
    m2: CoreModel<Wrap<T, A>, V, T::Ckpt>,
    r: Result<Option<Wrap<T, A>>, KVSparkleErr<D::Err>>,
) -> bool where
    T: Tx<V> + TxCkpt,
    V: Copy,
    A: AuxStore<V>,
    D: RWDurable<V, Wrap<T, A>>,
    T::Prp: MaybeIndexer<u64>,
    T::Mapping: Mapper<u64, V>,
 {
    let tid = txn.sid();
    let aux = txn.ax.s_aux();
    if m.reset.contains(tid) {
        exists|mr: CoreModel<Wrap<T, A>, V, T::Ckpt>|
            #[trigger] reset_rel(m, txn, mr) && (match r {
                Ok(nxt) => get_next_rel(mr, m2, nxt),
                Err(_) => false,
            })
    } else {
        match prp.s_keys() {
            None => false,
            Some(keys) => {
                let sc = rd_scan(m.table, aux.rdset@, aux.wrset@, keys, tid);
                if !sc.3 {
                    &&& m2 == (CoreModel { table: sc.0, ..m })
                    &&& exists|w2: Wrap<T, A>|
                        {
                            &&& #[trigger] w2.ax.s_aux().rdset@ == sc.1
                            &&& w2.tx == txn.tx.s_rd(<T::Mapping as Mapper<u64, V>>::s_from(sc.2))
                            &&& w2.ax.s_aux().wrset@ == aux.wrset@
                            &&& w2.ax.s_aux().wrpub == aux.wrpub
                            &&& w2.ax.s_aux().wf()
                            &&& r == Ok::<Option<Wrap<T, A>>, KVSparkleErr<D::Err>>(Some(w2))
                        }
                } else {
                    match dur.s_rd(prp) {
                        Err(e) => r == Err::<Option<Wrap<T, A>>, KVSparkleErr<D::Err>>(
                            KVSparkleErr::External(e),
                        ) && m2 == (CoreModel { table: sc.0, ..m }),
                        Ok(dm) => {
                            let du = rd_durable(sc.1, aux.wrset@, dm.s_pairs(), sc.2);
                            &&& m2 == (CoreModel { table: sc.0, ..m })
                            &&& exists|w2: Wrap<T, A>|
                                {
                                    &&& #[trigger] w2.ax.s_aux().rdset@ == du.0
                                    &&& w2.tx == txn.tx.s_rd(<T::Mapping as Mapper<u64, V>>::s_from(
                                        du.1,
                                    ))
                                    &&& w2.ax.s_aux().wrset@ == aux.wrset@
                                    &&& w2.ax.s_aux().wrpub == aux.wrpub
                                    &&& w2.ax.s_aux().wf()
                                    &&& r == Ok::<Option<Wrap<T, A>>, KVSparkleErr<D::Err>>(Some(
                                        w2,
                                    ))
                                }
                        },
                    }
                }
            },
        }
    }
}

impl<T, V, A> KVCore<T, V, A> where T: Tx<V> + TxCkpt, V: Copy, A: AuxStore<V> {
    /// Route a read request: a transaction marked for rollback is reset and
    /// another runnable transaction is handed back instead; otherwise every
    /// key the proposition selects is served from the transaction's own
    /// sets or the table, with a batch durable fetch for the missed ones.
    #[verifier::rlimit(100)]
    #[verifier::loop_isolation(false)]
    pub fn rd<D: RWDurable<V, Wrap<T, A>>>(
        &mut self,
        txn: Wrap<T, A>,
        prp: T::Prp,
        dur: &D,
    ) -> (r: Result<Option<Wrap<T, A>>, KVSparkleErr<D::Err>>) where
        T::Prp: MaybeIndexer<u64>,
        T::Mapping: Mapper<u64, V>,

        requires
            old(self).wf(),
            txn.sid() != 0,
            txn.ax.s_aux().wf(),
            dur.inv(),
            prp.s_keys() is Some,
        ensures
            final(self).wf(),
            rd_rel(old(self).model(), txn, prp, *dur, final(self).model(), r),
            (match r {
                Ok(Some(t)) => t.ax.s_aux().wf(),
                _ => true,
            }),
    {
        let ghost m0 = self.model();
        let tid = txn.id();
        if self.reset.contains(tid) {
            self.reset(txn);
            let nxt = self.get_next();
            return Ok(nxt);
        }
        let Wrap { tx, ax } = txn;
        let mut aux = A::into_aux(ax);
        proof {
            assert(aux == txn.ax.s_aux());
        }
        let ghost rd0 = aux.rdset@;
        let ghost wr0 = aux.wrset@;
        let ghost wp0 = aux.wrpub;
        match prp.tryc_indexer() {
            None => {
                proof {
                    assert(false);
                }
                Err(KVSparkleErr::Unsupported)
            },
            Some(keys) => {
                let ghost kseq = keys@;
                let mut pairs: Vec<(u64, Option<V>)> = Vec::new();
                let mut miss = false;
                let klen = keys.len();
                let mut i: usize = 0;
                while i < klen
                    invariant
                        i <= klen,
                        self.table.wf(),
                        self.tpool.wf(),
                        self.reset.wf(),
                        self.ckpts.wf(),
                        aux.rdset.wf(),
                        aux.wrset.wf(),
                        self.table@ == rd_scan(m0.table, rd0, wr0, kseq.take(i as int), tid).0,
                        aux.rdset@ == rd_scan(m0.table, rd0, wr0, kseq.take(i as int), tid).1,
                        pairs@ == rd_scan(m0.table, rd0, wr0, kseq.take(i as int), tid).2,
                        miss == rd_scan(m0.table, rd0, wr0, kseq.take(i as int), tid).3,
                        aux.wrset@ == wr0,
                        aux.wrpub == wp0,
                        self.tpool.todos() == m0.todo,
                        self.tpool.dones() == m0.done,
                        self.reset@ == m0.reset,
                        self.ckpts@ == m0.ckpts,
                        self.progress == m0.progress,
                        self.last_tid == m0.last,
                    decreases klen - i,
                {
                    let key = keys[i];
                    proof {
                        assert(kseq.take(i as int + 1).drop_last() =~= kseq.take(i as int));
                        assert(kseq.take(i as int + 1).last() == kseq[i as int]);
                    }
                    match aux.read_local(key) {
                        Some(val) => {
                            if val.is_some() {
                                pairs.push((key, val));
                            }
                        },
                        None => {
                            match self.table.read(key, tid) {
                                Ok((val, ver)) => {
                                    if val.is_some() {
                                        pairs.push((key, val));
                                    }
                                    aux.rdset.insert(key, (val, ver));
                                },
                                Err(_) => {
                                    miss = true;
                                },
                            }
                        },
                    }
                    i = i + 1;
                }
                proof {
                    assert(kseq.take(klen as int) =~= kseq);
                }
                if miss {
                    match dur.rd(prp) {
                        Err(e) => {
                            return Err(KVSparkleErr::External(e));
                        },
                        Ok(dm) => {
                            let dps = dm.into_mapping();
                            let ghost dseq = dps@;
                            let ghost rd1 = aux.rdset@;
                            let ghost ps1 = pairs@;
                            let dlen = dps.len();
                            let mut j: usize = 0;
                            while j < dlen
                                invariant
                                    j <= dlen,
                                    aux.rdset.wf(),
                                    aux.wrset.wf(),
                                    aux.rdset@ == rd_durable(rd1, wr0, dseq.take(j as int), ps1).0,
                                    pairs@ == rd_durable(rd1, wr0, dseq.take(j as int), ps1).1,
                                    aux.wrset@ == wr0,
                                    aux.wrpub == wp0,
                                decreases dlen - j,
                            {
                                let p = dps[j];
                                proof {
                                    assert(dseq.take(j as int + 1).drop_last() =~= dseq.take(
                                        j as int,
                                    ));
                                    assert(dseq.take(j as int + 1).last() == dseq[j as int]);
                                }
                                let skip1 = aux.wrset.contains_key(p.0);
                                let skip2 = aux.rdset.contains_key(p.0);
                                if !skip1 && !skip2 {
                                    if p.1.is_some() {
                                        pairs.push(p);
                                    }
                                    aux.rdset.insert(p.0, (p.1, 0));
                                }
                                j = j + 1;
                            }
                            proof {
                                assert(dseq.take(dlen as int) =~= dseq);
                            }
                            let mp = <T::Mapping as Mapper<u64, V>>::from_mapping(pairs);
                            let w2 = Wrap { tx: tx.rd(mp), ax: A::from_aux(aux) };
                            proof {
                                assert(w2.ax.s_aux() == aux);
                                assert(w2.ax.s_aux().rdset@ == aux.rdset@);
                            }
                            Ok(Some(w2))
                        },
                    }
                } else {
                    let mp = <T::Mapping as Mapper<u64, V>>::from_mapping(pairs);
                    let w2 = Wrap { tx: tx.rd(mp), ax: A::from_aux(aux) };
                    proof {
                        assert(w2.ax.s_aux() == aux);
                        assert(w2.ax.s_aux().rdset@ == aux.rdset@);
                    }
                    Ok(Some(w2))
                }
            },
        }
    }
}

/// One pass over the pairs a write requests: keys already in the write-set
/// are overwritten locally; fresh keys take the write lock, preempting any
/// larger holder (which is marked for reset); a lock held by a smaller id
/// blocks the pass where it stands.
pub open spec fn wr_scan<V>(
    t: Map<u64, EntryModel<V>>,
    rs: Set<u64>,
    wr: Map<u64, (Option<V>, bool)>,
    ps: Seq<(u64, Option<V>)>,
    tid: u64,
) -> (Map<u64, EntryModel<V>>, Set<u64>, Map<u64, (Option<V>, bool)>, bool)
    decreases ps.len(),
{
    if ps.len() == 0 {
        (t, rs, wr, false)
    } else {
        let p = wr_scan(t, rs, wr, ps.drop_last(), tid);
        if p.3 {
            p
        } else {
            let k = ps.last().0;
            let v = ps.last().1;
            if p.2.contains_key(k) {
                (p.0, p.1, p.2.insert(k, (v, false)), false)
            } else {
                let q = spec_wlock(p.0, k, tid);
                match q.1 {
                    Ok(h) => match h {
                        Some(pre) => (q.0, p.1.insert(pre), p.2.insert(k, (v, false)), false),
                        None => (q.0, p.1, p.2.insert(k, (v, false)), false),
                    },
                    Err(_) => (q.0, p.1, p.2, true),
                }
            }
        }
    }
}

/// Once the pass blocks, the remaining pairs are left unprocessed.
proof fn lemma_wr_scan_stuck<V>(
    t: Map<u64, EntryModel<V>>,
    rs: Set<u64>,
    wr: Map<u64, (Option<V>, bool)>,
    ps: Seq<(u64, Option<V>)>,
    tid: u64,
    i: int,
)
    requires
        0 <= i <= ps.len(),
        wr_scan(t, rs, wr, ps.take(i), tid).3,
    ensures
        wr_scan(t, rs, wr, ps, tid) == wr_scan(t, rs, wr, ps.take(i), tid),
    decreases ps.len(),
{
    if ps.len() == i {
        assert(ps.take(i) =~= ps);
    } else {
        assert(ps.drop_last().take(i) =~= ps.take(i));
        lemma_wr_scan_stuck(t, rs, wr, ps.drop_last(), tid, i);
    }
}

/// What a write does, for every scheduling outcome of the pool.
pub open spec fn wr_rel<T, V, A, E>(
    m: CoreModel<Wrap<T, A>, V, T::Ckpt>,
    txn: Wrap<T, A>,
    mapv: T::Mapping,
    m2: CoreModel<Wrap<T, A>, V, T::Ckpt>,
    r: Result<Option<Wrap<T, A>>, KVSparkleErr<E>>,
) -> bool where
    T: Tx<V> + TxCkpt,
    V: Copy,
    A: AuxStore<V>,
    T::Mapping: Mapper<u64, V>,
 {
    let tid = txn.sid();
    let aux = txn.ax.s_aux();
    if m.reset.contains(tid) {
        exists|mr: CoreModel<Wrap<T, A>, V, T::Ckpt>|
            #[trigger] reset_rel(m, txn, mr) && (match r {
                Ok(nxt) => get_next_rel(mr, m2, nxt),
                Err(_) => false,
            })
    } else {
        let sc = wr_scan(m.table, m.reset, aux.wrset@, mapv.s_pairs(), tid);
        if sc.3 {
            match r {
                Ok(nxt) => exists|w2: Wrap<T, A>|
                    {
                        &&& #[trigger] w2.ax.s_aux().wrset@ == sc.2
                        &&& w2.tx == txn.tx
                        &&& w2.ax.s_aux().rdset@ == aux.rdset@
                        &&& w2.ax.s_aux().rdset.seq() == aux.rdset.seq()
                        &&& w2.ax.s_aux().wrpub == aux.wrpub
                        &&& w2.ax.s_aux().wf()
                        &&& get_next_rel(
                            (CoreModel {
                                table: sc.0,
                                reset: sc.1,
                                todo: m.todo.insert(w2.sid(), w2),
                                ..m
                            }),
                            m2,
                            nxt,
                        )
                    },
                Err(_) => false,
            }
        } else {
            &&& m2 == (CoreModel { table: sc.0, reset: sc.1, ..m })
            &&& match r {
                Ok(o) => exists|w2: Wrap<T, A>|
                    {
                        &&& #[trigger] w2.ax.s_aux().wrset@ == sc.2
                        &&& w2.tx == txn.tx.s_wr()
                        &&& w2.ax.s_aux().rdset@ == aux.rdset@
                        &&& w2.ax.s_aux().wrpub == aux.wrpub
                        &&& w2.ax.s_aux().wf()
                        &&& o == Some(w2)
                    },
                Err(_) => false,
            }
        }
    }
}

impl<T, V, A> KVCore<T, V, A> where T: Tx<V> + TxCkpt, V: Copy, A: AuxStore<V> {
    /// Route a write request: overwrite the transaction's own pending
    /// writes in place, lock fresh keys (preempting lower-priority holders)
    /// and suspend the transaction when a higher-priority holder blocks it.
    #[verifier::rlimit(100)]
    #[verifier::loop_isolation(false)]
    pub fn wr<E>(&mut self, txn: Wrap<T, A>, mapv: T::Mapping) -> (r: Result<
        Option<Wrap<T, A>>,
        KVSparkleErr<E>,
    >) where T::Mapping: Mapper<u64, V>
        requires
            old(self).wf(),
            txn.sid() != 0,
            txn.ax.s_aux().wf(),
        ensures
            final(self).wf(),
            wr_rel(old(self).model(), txn, mapv, final(self).model(), r),
            (match r {
                Ok(Some(t)) => t.ax.s_aux().wf(),
                _ => true,
            }),
    {
        let ghost m0 = self.model();
        let tid = txn.id();
        if self.reset.contains(tid) {
            self.reset(txn);
            let nxt = self.get_next();
            return Ok(nxt);
        }
        let Wrap { tx, ax } = txn;
        let mut aux = A::into_aux(ax);
        proof {
            assert(aux == txn.ax.s_aux());
        }
        let ghost rd0 = aux.rdset@;
        let ghost rs0seq = aux.rdset.seq();
        let ghost wr0 = aux.wrset@;
        let ghost wp0 = aux.wrpub;
        let ps = mapv.into_mapping();
        let ghost pseq = ps@;
        let plen = ps.len();
        let mut i: usize = 0;
        let mut blocked = false;
        while !blocked && i < plen
            invariant
                i <= plen,
                self.table.wf(),
                self.tpool.wf(),
                self.reset.wf(),
                self.ckpts.wf(),
                aux.rdset.wf(),
                aux.wrset.wf(),
                self.table@ == wr_scan(m0.table, m0.reset, wr0, pseq.take(i as int), tid).0,
                self.reset@ == wr_scan(m0.table, m0.reset, wr0, pseq.take(i as int), tid).1,
                aux.wrset@ == wr_scan(m0.table, m0.reset, wr0, pseq.take(i as int), tid).2,
                blocked == wr_scan(m0.table, m0.reset, wr0, pseq.take(i as int), tid).3,
                aux.rdset@ == rd0,
                aux.rdset.seq() == rs0seq,
                aux.wrpub == wp0,
                self.tpool.todos() == m0.todo,
                self.tpool.dones() == m0.done,
                self.ckpts@ == m0.ckpts,
                self.progress == m0.progress,
                self.last_tid == m0.last,
            decreases plen - i,
        {
            let p = ps[i];
            proof {
                assert(pseq.take(i as int + 1).drop_last() =~= pseq.take(i as int));
                assert(pseq.take(i as int + 1).last() == pseq[i as int]);
            }
            if aux.wrset.contains_key(p.0) {
                aux.wrset.insert(p.0, (p.1, false));
            } else {
                match self.table.wlock(p.0, tid) {
                    Ok(Some(pre)) => {
                        self.reset.insert(pre);
                        aux.wrset.insert(p.0, (p.1, false));
                    },
                    Ok(None) => {
                        aux.wrset.insert(p.0, (p.1, false));
                    },
                    Err(_) => {
                        blocked = true;
                    },
                }
            }
            i = i + 1;
        }
        if blocked {
            proof {
                lemma_wr_scan_stuck(m0.table, m0.reset, wr0, pseq, tid, i as int);
            }
            let w2 = Wrap { tx, ax: A::from_aux(aux) };
            proof {
                assert(w2.ax.s_aux() == aux);
                assert(w2.ax.s_aux().wrset@ == aux.wrset@);
            }
            self.tpool.put_todo(w2);
            let nxt = self.get_next();
            Ok(nxt)
        } else {
            proof {
                assert(pseq.take(plen as int) =~= pseq);
            }
            let w2 = Wrap { tx: tx.wr(), ax: A::from_aux(aux) };
            proof {
                assert(w2.ax.s_aux() == aux);
                assert(w2.ax.s_aux().wrset@ == aux.wrset@);
            }
            Ok(Some(w2))
        }
    }
}

/// One pass publishing the write-set into the table.  On abort, locks are
/// released without publishing.  A publish that finds its lock lost stops
/// the pass with the preempted flag.  The third component is the write-set
/// sequence with its published marks updated.
pub open spec fn pub_scan<V>(
    t: Map<u64, EntryModel<V>>,
    rs: Set<u64>,
    tid: u64,
    wrs: Seq<(u64, (Option<V>, bool))>,
    abort: bool,
    wrpub: bool,
) -> (Map<u64, EntryModel<V>>, Set<u64>, Seq<(u64, (Option<V>, bool))>, bool)
    decreases wrs.len(),
{
    if wrs.len() == 0 {
        (t, rs, Seq::empty(), false)
    } else {
        let p = pub_scan(t, rs, tid, wrs.drop_last(), abort, wrpub);
        let last = wrs.last();
        if p.3 {
            (p.0, p.1, p.2.push(last), true)
        } else if abort {
            (spec_unwlock(p.0, last.0, tid), p.1, p.2.push(last), false)
        } else if wrpub || last.1.1 {
            (p.0, p.1, p.2.push(last), false)
        } else {
            let q = spec_write(p.0, last.0, last.1.0, tid);
            match q.1 {
                Ok(vic) => (q.0, p.1.union(vic), p.2.push((last.0, (last.1.0, true))), false),
                Err(_) => (q.0, p.1, p.2.push(last), true),
            }
        }
    }
}

/// The updated write-set sequence keeps its length.
proof fn lemma_pub_scan_len<V>(
    t: Map<u64, EntryModel<V>>,
    rs: Set<u64>,
    tid: u64,
    wrs: Seq<(u64, (Option<V>, bool))>,
    abort: bool,
    wrpub: bool,
)
    ensures
        pub_scan(t, rs, tid, wrs, abort, wrpub).2.len() == wrs.len(),
    decreases wrs.len(),
{
    if wrs.len() > 0 {
        lemma_pub_scan_len(t, rs, tid, wrs.drop_last(), abort, wrpub);
    }
}

/// Once the pass is preempted, the remaining entries are left untouched.
proof fn lemma_pub_scan_stuck<V>(
    t: Map<u64, EntryModel<V>>,
    rs: Set<u64>,
    tid: u64,
    wrs: Seq<(u64, (Option<V>, bool))>,
    abort: bool,
    wrpub: bool,
    i: int,
)
    requires
        0 <= i <= wrs.len(),
        pub_scan(t, rs, tid, wrs.take(i), abort, wrpub).3,
    ensures
        pub_scan(t, rs, tid, wrs, abort, wrpub).0 == pub_scan(t, rs, tid, wrs.take(i), abort, wrpub).0,
        pub_scan(t, rs, tid, wrs, abort, wrpub).1 == pub_scan(t, rs, tid, wrs.take(i), abort, wrpub).1,
        pub_scan(t, rs, tid, wrs, abort, wrpub).3,
        pub_scan(t, rs, tid, wrs, abort, wrpub).2 == pub_scan(t, rs, tid, wrs.take(i), abort, wrpub).2
            + wrs.skip(i),
    decreases wrs.len(),
{
    if wrs.len() == i {
        assert(wrs.take(i) =~= wrs);
        assert(wrs.skip(i) =~= Seq::<(u64, (Option<V>, bool))>::empty());
        assert(pub_scan(t, rs, tid, wrs, abort, wrpub).2 =~= pub_scan(t, rs, tid, wrs.take(i), abort, wrpub).2 + wrs.skip(i));
    } else {
        assert(wrs.drop_last().take(i) =~= wrs.take(i));
        lemma_pub_scan_stuck(t, rs, tid, wrs.drop_last(), abort, wrpub, i);
        assert(pub_scan(t, rs, tid, wrs, abort, wrpub).2 =~= pub_scan(t, rs, tid, wrs.take(i), abort, wrpub).2 + wrs.skip(i)) by {
            assert(pub_scan(t, rs, tid, wrs, abort, wrpub).2 == pub_scan(t, rs, tid, wrs.drop_last(), abort, wrpub).2.push(wrs.last()));
            assert(wrs.drop_last().skip(i).push(wrs.last()) =~= wrs.skip(i));
        }
    }
}

/// Pruning each written key's history at the committing id.
pub open spec fn prune_all<V>(
    t: Map<u64, EntryModel<V>>,
    tid: u64,
    wrs: Seq<(u64, (Option<V>, bool))>,
    abort: bool,
) -> Map<u64, EntryModel<V>>
    decreases wrs.len(),
{
    if wrs.len() == 0 {
        t
    } else {
        let t1 = prune_all(t, tid, wrs.drop_last(), abort);
        if abort {
            t1
        } else {
            spec_prune(t1, wrs.last().0, tid)
        }
    }
}

/// The write set handed to the durability backend at commit time.
pub open spec fn final_pairs<V>(wrs: Seq<(u64, (Option<V>, bool))>, abort: bool) -> Seq<
    (u64, Option<V>),
> {
    if abort {
        Seq::empty()
    } else {
        wrs.map_values(|p: (u64, (Option<V>, bool))| (p.0, p.1.0))
    }
}

/// What a close does, for every outcome of the backend and the pool: a
/// transaction marked for rollback is reset; otherwise its writes are
/// published (aborts release locks instead), and it either waits for its
/// commit turn under "done" or finalizes: the writes are persisted, the
/// written histories pruned, the watermark advanced to exactly its id, and
/// its output released.
pub open spec fn done_rel<T, V, A, D>(
    m: CoreModel<Wrap<T, A>, V, T::Ckpt>,
    txn: Wrap<T, A>,
    end: crate::tx::End,
    dur: D,
    m2: CoreModel<Wrap<T, A>, V, T::Ckpt>,
    d2: D,
    r: Result<(Option<Wrap<T, A>>, Option<Option<T::Out>>), KVSparkleErr<D::Err>>,
) -> bool where
    T: Tx<V> + TxCkpt,
    V: Copy,
    A: AuxStore<V>,
    D: RWDurable<V, Wrap<T, A>>,
    T::Mapping: Mapper<u64, V>,
 {
    let tid = txn.sid();
    let aux = txn.ax.s_aux();
    if m.reset.contains(tid) {
        &&& d2.model() == dur.model()
        &&& exists|mr: CoreModel<Wrap<T, A>, V, T::Ckpt>|
            #[trigger] reset_rel(m, txn, mr) && (match r {
                Ok((nxt, out)) => out is None && get_next_rel(mr, m2, nxt),
                Err(_) => false,
            })
    } else {
        let abort = end is Abort;
        let sc = pub_scan(m.table, m.reset, tid, aux.wrset.seq(), abort, aux.wrpub);
        let mp = CoreModel { table: sc.0, reset: sc.1, ..m };
        if sc.3 {
            &&& d2.model() == dur.model()
            &&& exists|w2: Wrap<T, A>|
                {
                    &&& #[trigger] w2.ax.s_aux().wrset.seq() == sc.2
                    &&& w2.tx == txn.tx
                    &&& w2.ax.s_aux().rdset.seq() == aux.rdset.seq()
                    &&& w2.ax.s_aux().wrpub == aux.wrpub
                    &&& exists|mr: CoreModel<Wrap<T, A>, V, T::Ckpt>|
                        #[trigger] reset_rel(mp, w2, mr) && (match r {
                            Ok((nxt, out)) => out is None && get_next_rel(mr, m2, nxt),
                            Err(_) => false,
                        })
                }
        } else if m.progress == u64::MAX || m.progress + 1 != tid {
            &&& d2.model() == dur.model()
            &&& exists|w2: Wrap<T, A>|
                {
                    &&& #[trigger] w2.ax.s_aux().wrset.seq() == sc.2
                    &&& w2.tx == txn.tx
                    &&& w2.ax.s_aux().rdset.seq() == aux.rdset.seq()
                    &&& w2.ax.s_aux().rdset@ == aux.rdset@
                    &&& w2.ax.s_aux().wrpub == true
                    &&& w2.ax.s_aux().wf()
                    &&& match r {
                        Ok((nxt, out)) => out is None && get_next_rel(
                            (CoreModel { done: mp.done.insert(w2.sid(), w2), ..mp }),
                            m2,
                            nxt,
                        ),
                        Err(_) => false,
                    }
                }
        } else if sc.1.contains(tid) {
            &&& d2.model() == dur.model()
            &&& exists|w2: Wrap<T, A>|
                {
                    &&& #[trigger] w2.ax.s_aux().wrset.seq() == sc.2
                    &&& w2.tx == txn.tx
                    &&& w2.ax.s_aux().rdset.seq() == aux.rdset.seq()
                    &&& w2.ax.s_aux().wrpub == true
                    &&& exists|mr: CoreModel<Wrap<T, A>, V, T::Ckpt>|
                        #[trigger] reset_rel(mp, w2, mr) && (match r {
                            Ok((nxt, out)) => out is None && get_next_rel(mr, m2, nxt),
                            Err(_) => false,
                        })
                }
        } else {
            exists|w2: Wrap<T, A>|
                {
                    &&& #[trigger] w2.ax.s_aux().wrset.seq() == sc.2
                    &&& w2.tx == txn.tx
                    &&& w2.ax.s_aux().wrpub == true
                    &&& ({
                        let dw = dur.s_wr_res(&w2, <T::Mapping as Mapper<u64, V>>::s_from(
                            final_pairs(sc.2, abort),
                        ));
                        &&& d2.model() == dur.s_wr_model(&w2, <T::Mapping as Mapper<u64, V>>::s_from(
                            final_pairs(sc.2, abort),
                        ))
                        &&& match dw {
                            Err(e) => r == Err::<
                                (Option<Wrap<T, A>>, Option<Option<T::Out>>),
                                KVSparkleErr<D::Err>,
                            >(KVSparkleErr::External(e)) && m2 == mp
                            ,
                            Ok(u) => match r {
                                Ok((nxt, out)) => out == Some(txn.tx.s_cl()) && get_next_rel(
                                    (CoreModel {
                                        table: prune_all(sc.0, tid, sc.2, abort),
                                        reset: sc.1,
                                        todo: m.todo,
                                        done: m.done,
                                        ckpts: m.ckpts.remove(tid),
                                        progress: tid,
                                        last: m.last,
                                    }),
                                    m2,
                                    nxt,
                                ),
                                Err(_) => false,
                            },
                        }
                    })
                }
        }
    }
}

impl<T, V, A> KVCore<T, V, A> where T: Tx<V> + TxCkpt, V: Copy, A: AuxStore<V> {
    /// Route a close request; see `done_rel` for the outcomes.
    #[verifier::rlimit(100)]
    #[verifier::loop_isolation(false)]
    pub fn done<D: RWDurable<V, Wrap<T, A>>>(
        &mut self,
        txn: Wrap<T, A>,
        end: crate::tx::End,
        dur: &mut D,
    ) -> (r: Result<(Option<Wrap<T, A>>, Option<Option<T::Out>>), KVSparkleErr<D::Err>>) where
        T::Mapping: Mapper<u64, V>,

        requires
            old(self).wf(),
            txn.sid() != 0,
            txn.ax.s_aux().wf(),
            old(dur).inv(),
        ensures
            final(self).wf(),
            final(dur).inv(),
            done_rel(
                old(self).model(),
                txn,
                end,
                *old(dur),
                final(self).model(),
                *final(dur),
                r,
            ),
            (match r {
                Ok((Some(t), _)) => t.ax.s_aux().wf(),
                _ => true,
            }),
    {
        let ghost m0 = self.model();
        let tid = txn.id();
        if self.reset.contains(tid) {
            self.reset(txn);
            let nxt = self.get_next();
            return Ok((nxt, None));
        }
        let Wrap { tx, ax } = txn;
        let mut aux = A::into_aux(ax);
        proof {
            assert(aux == txn.ax.s_aux());
        }
        let ghost w0seq = aux.wrset.seq();
        let ghost rs0seq = aux.rdset.seq();
        let ghost wp0 = aux.wrpub;
        let is_abort = match end {
            crate::tx::End::Abort => true,
            crate::tx::End::Ready => false,
        };
        let wlen = aux.wrset.len();
        let mut i: usize = 0;
        let mut preempted = false;
        while !preempted && i < wlen
            invariant
                i <= wlen,
                wlen == w0seq.len(),
                self.table.wf(),
                self.tpool.wf(),
                self.reset.wf(),
                self.ckpts.wf(),
                aux.rdset.wf(),
                aux.wrset.wf(),
                self.table@ == pub_scan(m0.table, m0.reset, tid, w0seq.take(i as int), is_abort, wp0).0,
                self.reset@ == pub_scan(m0.table, m0.reset, tid, w0seq.take(i as int), is_abort, wp0).1,
                aux.wrset.seq() == pub_scan(m0.table, m0.reset, tid, w0seq.take(i as int), is_abort, wp0).2
                    + w0seq.skip(i as int),
                preempted == pub_scan(m0.table, m0.reset, tid, w0seq.take(i as int), is_abort, wp0).3,
                aux.rdset.seq() == rs0seq,
                aux.wrpub == wp0,
                self.tpool.todos() == m0.todo,
                self.tpool.dones() == m0.done,
                self.ckpts@ == m0.ckpts,
                self.progress == m0.progress,
                self.last_tid == m0.last,
            decreases wlen - i,
        {
            let ghost scpre = pub_scan(m0.table, m0.reset, tid, w0seq.take(i as int), is_abort, wp0);
            proof {
                lemma_pub_scan_len(m0.table, m0.reset, tid, w0seq.take(i as int), is_abort, wp0);
                assert(scpre.2.len() == i as int);
                assert(aux.wrset.seq().len() == w0seq.len());
            }
            let p = *aux.wrset.get_pair(i);
            proof {
                assert(w0seq.take(i as int + 1).drop_last() =~= w0seq.take(i as int));
                assert(w0seq.take(i as int + 1).last() == w0seq[i as int]);
                assert(aux.wrset.seq()[i as int] == w0seq[i as int]) by {
                    assert((scpre.2 + w0seq.skip(i as int))[i as int] == w0seq.skip(i as int)[0]);
                }
            }
            if is_abort {
                self.table.unwlock(p.0, tid);
                proof {
                    assert(aux.wrset.seq() =~= pub_scan(
                        m0.table,
                        m0.reset,
                        tid,
                        w0seq.take(i as int + 1),
                        is_abort,
                        wp0,
                    ).2 + w0seq.skip(i as int + 1));
                }
            } else if aux.wrpub || p.1.1 {
                proof {
                    assert(aux.wrset.seq() =~= pub_scan(
                        m0.table,
                        m0.reset,
                        tid,
                        w0seq.take(i as int + 1),
                        is_abort,
                        wp0,
                    ).2 + w0seq.skip(i as int + 1));
                }
            } else {
                match self.table.write(p.0, p.1.0, tid) {
                    Ok(vic) => {
                        let ghost rs_mid = self.reset@;
                        let ghost t_mid = self.table@;
                        let ghost vseq = vic.seq();
                        proof {
                            vic.lemma_view_seq();
                        }
                        let vlen = vic.len();
                        let mut q: usize = 0;
                        while q < vlen
                            invariant
                                q <= vlen,
                                self.reset.wf(),
                                self.reset@ == rs_mid.union(vseq.take(q as int).to_set()),
                                self.table.wf(),
                                self.tpool.wf(),
                                self.ckpts.wf(),
                                self.table@ == t_mid,
                                self.tpool.todos() == m0.todo,
                                self.tpool.dones() == m0.done,
                                self.ckpts@ == m0.ckpts,
                                self.progress == m0.progress,
                                self.last_tid == m0.last,
                            decreases vlen - q,
                        {
                            let v = vic.idx(q);
                            self.reset.insert(v);
                            proof {
                                assert(vseq.take(q as int + 1).drop_last() =~= vseq.take(q as int));
                                assert(vseq.take(q as int + 1).last() == vseq[q as int]);
                                assert forall|y: u64|
                                    self.reset@.contains(y) <==> rs_mid.union(
                                        vseq.take(q as int + 1).to_set(),
                                    ).contains(y) by {
                                    if vseq.take(q as int + 1).to_set().contains(y) {
                                        let jj = choose|jj: int|
                                            0 <= jj < vseq.take(q as int + 1).len()
                                                && #[trigger] vseq.take(q as int + 1)[jj] == y;
                                        if jj < q {
                                            assert(vseq.take(q as int)[jj] == y);
                                            assert(vseq.take(q as int).to_set().contains(y));
                                        } else {
                                            assert(vseq[q as int] == y);
                                        }
                                    }
                                    if vseq.take(q as int).to_set().contains(y) {
                                        let jj = choose|jj: int|
                                            0 <= jj < vseq.take(q as int).len()
                                                && #[trigger] vseq.take(q as int)[jj] == y;
                                        assert(vseq.take(q as int + 1)[jj] == y);
                                        assert(vseq.take(q as int + 1).to_set().contains(y));
                                    }
                                    if y == vseq[q as int] {
                                        assert(vseq.take(q as int + 1)[q as int] == y);
                                        assert(vseq.take(q as int + 1).to_set().contains(y));
                                    }
                                }
                                assert(self.reset@ =~= rs_mid.union(
                                    vseq.take(q as int + 1).to_set(),
                                ));
                            }
                            q = q + 1;
                        }
                        proof {
                            assert(vseq.take(vlen as int) =~= vseq);
                            assert(self.reset@ =~= rs_mid.union(vic@));
                        }
                        aux.wrset.set_at(i, (p.1.0, true));
                        proof {
                            assert(aux.wrset.seq() =~= pub_scan(
                                m0.table,
                                m0.reset,
                                tid,
                                w0seq.take(i as int + 1),
                                is_abort,
                                wp0,
                            ).2 + w0seq.skip(i as int + 1));
                        }
                    },
                    Err(_) => {
                        preempted = true;
                        proof {
                            assert(aux.wrset.seq() =~= pub_scan(
                                m0.table,
                                m0.reset,
                                tid,
                                w0seq.take(i as int + 1),
                                is_abort,
                                wp0,
                            ).2 + w0seq.skip(i as int + 1));
                        }
                    },
                }
            }
            i = i + 1;
        }
        let ghost sc = pub_scan(m0.table, m0.reset, tid, w0seq, is_abort, wp0);
        if preempted {
            proof {
                lemma_pub_scan_stuck(m0.table, m0.reset, tid, w0seq, is_abort, wp0, i as int);
                assert(aux.wrset.seq() == sc.2);
            }
            let w2 = Wrap { tx, ax: A::from_aux(aux) };
            let ghost mpre = self.model();
            proof {
                assert(w2.ax.s_aux() == aux);
                assert(w2.ax.s_aux().wrset.seq() == sc.2);
                assert(mpre == (CoreModel { table: sc.0, reset: sc.1, ..m0 }));
            }
            self.reset(w2);
            let nxt = self.get_next();
            return Ok((nxt, None));
        }
        proof {
            assert(w0seq.take(wlen as int) =~= w0seq);
            assert(w0seq.skip(wlen as int) =~= Seq::<(u64, (Option<V>, bool))>::empty());
            assert(aux.wrset.seq() =~= sc.2);
        }
        aux.wrpub = true;
        let is_turn = self.progress < u64::MAX && self.progress + 1 == tid;
        if !is_turn {
            let w2 = Wrap { tx, ax: A::from_aux(aux) };
            let ghost mpre = self.model();
            proof {
                assert(w2.ax.s_aux() == aux);
                assert(w2.ax.s_aux().wrset.seq() == sc.2);
                aux.rdset.lemma_view();
                txn.ax.s_aux().rdset.lemma_view();
                assert(w2.ax.s_aux().rdset@ == txn.ax.s_aux().rdset@);
                assert(mpre == (CoreModel { table: sc.0, reset: sc.1, ..m0 }));
            }
            self.tpool.put_done(w2);
            proof {
                assert(self.model() == (CoreModel { done: mpre.done.insert(w2.sid(), w2), ..mpre }));
            }
            let nxt = self.get_next();
            return Ok((nxt, None));
        }
        if self.reset.contains(tid) {
            let w2 = Wrap { tx, ax: A::from_aux(aux) };
            proof {
                assert(w2.ax.s_aux() == aux);
                assert(w2.ax.s_aux().wrset.seq() == aux.wrset.seq());
            }
            self.reset(w2);
            let nxt = self.get_next();
            return Ok((nxt, None));
        }
        let ghost wseq2 = aux.wrset.seq();
        let mut fps: Vec<(u64, Option<V>)> = Vec::new();
        if !is_abort {
            let mut j: usize = 0;
            let flen = aux.wrset.len();
            while j < flen
                invariant
                    j <= flen,
                    flen == wseq2.len(),
                    aux.wrset.seq() == wseq2,
                    aux.wrset.wf(),
                    fps@ =~= wseq2.take(j as int).map_values(
                        |p: (u64, (Option<V>, bool))| (p.0, p.1.0),
                    ),
                decreases flen - j,
            {
                let p = *aux.wrset.get_pair(j);
                fps.push((p.0, p.1.0));
                proof {
                    assert(fps@ =~= wseq2.take(j as int + 1).map_values(
                        |pp: (u64, (Option<V>, bool))| (pp.0, pp.1.0),
                    ));
                }
                j = j + 1;
            }
            proof {
                assert(wseq2.take(flen as int) =~= wseq2);
            }
        }
        proof {
            assert(fps@ =~= final_pairs(wseq2, is_abort));
        }
        let txn2 = Wrap { tx, ax: A::from_aux(aux) };
        proof {
            assert(txn2.ax.s_aux() == aux);
            assert(txn2.ax.s_aux().wrset.seq() == wseq2);
        }
        let mp2 = <T::Mapping as Mapper<u64, V>>::from_mapping(fps);
        match dur.wr(&txn2, mp2) {
            Err(e) => {
                return Err(KVSparkleErr::External(e));
            },
            Ok(_) => (),
        }
        let Wrap { tx, ax } = txn2;
        let mut aux = A::into_aux(ax);
        let ghost t_pub = self.table@;
        let plen2 = aux.wrset.len();
        let mut j: usize = 0;
        while j < plen2
            invariant
                j <= plen2,
                plen2 == wseq2.len(),
                aux.wrset.seq() == wseq2,
                aux.wrset.wf(),
                self.table.wf(),
                self.tpool.wf(),
                self.reset.wf(),
                self.ckpts.wf(),
                self.table@ == prune_all(t_pub, tid, wseq2.take(j as int), is_abort),
                self.reset@ == sc.1,
                self.tpool.todos() == m0.todo,
                self.tpool.dones() == m0.done,
                self.ckpts@ == m0.ckpts,
                self.progress == m0.progress,
                self.last_tid == m0.last,
            decreases plen2 - j,
        {
            let p = *aux.wrset.get_pair(j);
            proof {
                assert(wseq2.take(j as int + 1).drop_last() =~= wseq2.take(j as int));
                assert(wseq2.take(j as int + 1).last() == wseq2[j as int]);
            }
            if !is_abort {
                self.table.prune(p.0, tid);
            }
            j = j + 1;
        }
        proof {
            assert(wseq2.take(plen2 as int) =~= wseq2);
        }
        aux.wrset = VecMap::new();
        self.progress = tid;
        self.ckpts.remove(tid);
        let out = tx.cl();
        let nxt = self.get_next();
        Ok((nxt, Some(out)))
    }
}

impl<T, V, A, D> RWControl<V, Wrap<T, A>, D> for KVCore<T, V, A> where
    T: Tx<V> + TxCkpt,
    V: Copy,
    A: AuxStore<V>,
    D: RWDurable<V, Wrap<T, A>>,
    T::Prp: MaybeIndexer<u64>,
    T::Mapping: Mapper<u64, V>,
 {
    type Err = KVSparkleErr<D::Err>;

    open spec fn inv(&self) -> bool {
        self.wf()
    }

    open spec fn admits(&self, txn: Wrap<T, A>) -> bool {
        txn.ax.s_aux().wf()
    }

    proof fn admits_go(&self, txn: Wrap<T, A>) {
        match txn.tx.s_go() {
            crate::tx::RWClosure::Op(t) => {
                assert(txn.s_go() == RWClosure::<Wrap<T, A>, T::Prp, T::Mapping>::Op(
                    Wrap { tx: t, ax: txn.ax },
                ));
            },
            crate::tx::RWClosure::Rd(t, p) => (),
            crate::tx::RWClosure::Wr(t, m) => (),
            crate::tx::RWClosure::Cl(t, e) => (),
        }
    }

    // The zero id is the implicit durable version and is never admitted to
    // speculative work: through the protocol interface such a transaction
    // is handed back untouched, and a proposition that cannot enumerate its
    // keys is refused.
    fn rd(&mut self, txn: Wrap<T, A>, prp: T::Prp, dur: &D) -> (r: Result<
        Option<Wrap<T, A>>,
        KVSparkleErr<D::Err>,
    >) {
        if txn.id() == 0 {
            return Ok(Some(txn));
        }
        match prp.tryc_indexer() {
            None => Err(KVSparkleErr::Unsupported),
            Some(_) => self.rd(txn, prp, dur),
        }
    }

    fn wr(&mut self, txn: Wrap<T, A>, mapv: T::Mapping, dur: &mut D) -> (r: Result<
        Option<Wrap<T, A>>,
        KVSparkleErr<D::Err>,
    >) {
        if txn.id() == 0 {
            return Ok(Some(txn));
        }
        self.wr(txn, mapv)
    }

    fn open(&mut self, txn: &mut Wrap<T, A>, dur: &D) -> (r: Result<(), KVSparkleErr<D::Err>>) {
        self.open(txn, dur)
    }

    fn done(&mut self, txn: Wrap<T, A>, end: crate::tx::End, dur: &mut D) -> (r: Result<
        (Option<Wrap<T, A>>, Option<Option<T::Out>>),
        KVSparkleErr<D::Err>,
    >) {
        if txn.id() == 0 {
            return Ok((Some(txn), None));
        }
        self.done(txn, end, dur)
    }
}

} // verus!
