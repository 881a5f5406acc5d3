//! The general properties of the engine, stated and proved over the spec
//! functions its contracts use.

use vstd::prelude::*;

use crate::kv_core::{
    done_rel, final_pairs, pub_scan, rd_rel, rd_scan, reset_rel, unpub_all, unread_all, CoreModel,
    KVSparkleErr,
};
use crate::rw::RWDurable;
use crate::constraint::Mapper;
use crate::constraint::MaybeIndexer;
use crate::kv_table::{
    max_pred_at, pred_of, spec_prune, spec_read, spec_wlock, at_least, EntryModel, KVTableErr,
};
use crate::tx::RWClosure;
use crate::twrap::{fresh_aux, AuxStore};
use crate::constraint::TxCkpt;
use crate::tx::Tx;
use crate::unif::U64Txn;
use crate::wrap::Wrap;

verus! {

/// The finalize rule of a close: a transaction commits only when its id is
/// exactly the successor of the watermark, which then advances to it.
pub open spec fn finalizes(progress: u64, tid: u64) -> bool {
    progress < u64::MAX && tid == progress + 1
}

proof fn lemma_progs(p0: u64, tids: Seq<u64>, progs: Seq<u64>, i: int)
    requires
        progs.len() == tids.len() + 1,
        progs[0] == p0,
        forall|j: int|
            0 <= j < tids.len() ==> finalizes(#[trigger] progs[j], tids[j]) && progs[j + 1]
                == tids[j],
        0 <= i < progs.len(),
    ensures
        progs[i] == p0 + i,
    decreases i,
{
    if i > 0 {
        lemma_progs(p0, tids, progs, i - 1);
        assert(finalizes(progs[i - 1], tids[i - 1]));
    }
}

/// Commit ordering: a run in which every finalized close followed the
/// finalize rule commits a strictly increasing, gapless sequence of ids.
/// The premise is exactly what the close contract guarantees whenever an
/// output is released.
pub proof fn lemma_commit_ordering(p0: u64, tids: Seq<u64>, progs: Seq<u64>)
    requires
        progs.len() == tids.len() + 1,
        progs[0] == p0,
        forall|j: int|
            0 <= j < tids.len() ==> finalizes(#[trigger] progs[j], tids[j]) && progs[j + 1]
                == tids[j],
    ensures
        forall|i: int| 0 <= i < tids.len() ==> #[trigger] tids[i] == p0 + i + 1,
        forall|i: int, j: int|
            0 <= i < j < tids.len() ==> #[trigger] tids[i] < #[trigger] tids[j],
{
    assert forall|i: int| 0 <= i < tids.len() implies #[trigger] tids[i] == p0 + i + 1 by {
        lemma_progs(p0, tids, progs, i);
        assert(finalizes(progs[i], tids[i]));
    }
}

/// Read-your-own-writes: a key pending in the transaction's own write-set
/// is served from it by a read, never from a table snapshot.
pub proof fn lemma_read_your_own_writes<V>(
    t: Map<u64, EntryModel<V>>,
    rd: Map<u64, (Option<V>, u64)>,
    wr: Map<u64, (Option<V>, bool)>,
    keys: Seq<u64>,
    tid: u64,
    i: int,
)
    requires
        0 <= i < keys.len(),
        wr.contains_key(keys[i]),
        wr[keys[i]].0 is Some,
    ensures
        rd_scan(t, rd, wr, keys, tid).2.contains((keys[i], wr[keys[i]].0)),
    decreases keys.len(),
{
    let sc = rd_scan(t, rd, wr, keys, tid);
    let p = rd_scan(t, rd, wr, keys.drop_last(), tid);
    if i == keys.len() - 1 {
        assert(sc.2.last() == (keys[i], wr[keys[i]].0));
        assert(sc.2.contains((keys[i], wr[keys[i]].0)));
    } else {
        assert(keys.drop_last()[i] == keys[i]);
        lemma_read_your_own_writes(t, rd, wr, keys.drop_last(), tid, i);
        let pr = (keys[i], wr[keys[i]].0);
        let j = choose|j: int| 0 <= j < p.2.len() && p.2[j] == pr;
        assert(sc.2.len() >= p.2.len());
        assert(sc.2[j] == pr);
        assert(sc.2.contains(pr));
    }
}

/// Rollback completeness: after a forced reset of a transaction whose
/// checkpoint is on file, the transaction stands under "todo", rewound to
/// that checkpoint, with empty auxiliary read and write sets.
pub proof fn lemma_rollback_completeness<T, V, A>(
    m: CoreModel<Wrap<T, A>, V, T::Ckpt>,
    txn: Wrap<T, A>,
    m2: CoreModel<Wrap<T, A>, V, T::Ckpt>,
) where T: Tx<V> + TxCkpt, V: Copy, A: AuxStore<V>
    requires
        reset_rel(m, txn, m2),
        m.ckpts.contains_key(txn.sid()),
    ensures
        exists|w2: Wrap<T, A>|
            {
                &&& #[trigger] m2.todo.contains_key(w2.sid())
                &&& m2.todo[w2.sid()] == w2
                &&& w2.tx == txn.tx.with_ckpt(m.ckpts[txn.sid()])
                &&& fresh_aux(w2.ax.s_aux())
            },
{
    let tid = txn.sid();
    let aux = txn.ax.s_aux();
    let t2 = unread_all(m.table, tid, aux.rdset.seq());
    let tr = unpub_all(t2, m.reset, m.progress, tid, aux.wrset.seq());
    let w2 = choose|w2: Wrap<T, A>|
        {
            &&& w2.tx == (if m.ckpts.contains_key(tid) {
                txn.tx.with_ckpt(m.ckpts[tid])
            } else {
                txn.tx
            })
            &&& fresh_aux(w2.ax.s_aux())
            &&& m2 == (CoreModel {
                table: tr.0,
                todo: m.todo.insert(w2.sid(), w2),
                done: m.done,
                reset: tr.1.remove(tid),
                ckpts: m.ckpts,
                progress: m.progress,
                last: m.last,
            })
        };
    assert(m2.todo.contains_key(w2.sid()));
}

/// Replay determinism: two integer transactions that agree on the seed and
/// the generation parameters yield the same next event, whatever their
/// counters; replaying from a checkpoint therefore reproduces the original
/// event sequence.
pub proof fn lemma_replay_same_events(t1: U64Txn, t2: U64Txn)
    requires
        t1.seed == t2.seed,
        t1.rwac == t2.rwac,
        t1.vrng == t2.vrng,
        t1.vmsk == t2.vmsk,
        t1.voff == t2.voff,
    ensures
        (match (t1.s_go(), t2.s_go()) {
            (RWClosure::Rd(_, p1), RWClosure::Rd(_, p2)) => p1 == p2,
            (RWClosure::Wr(_, m1), RWClosure::Wr(_, m2)) => m1 == m2,
            (RWClosure::Cl(_, e1), RWClosure::Cl(_, e2)) => e1 == e2,
            (RWClosure::Op(_), RWClosure::Op(_)) => true,
            _ => false,
        }),
{
}

/// Lock priority: of two transactions contending for one key's write lock,
/// the smaller id preempts a larger holder, and a larger id blocks behind
/// a smaller holder without unseating it.
pub proof fn lemma_lock_priority<V>(t: Map<u64, EntryModel<V>>, key: u64, a: u64, b: u64)
    requires
        a < b,
        t.contains_key(key),
    ensures
        t[key].lock == Some(b) ==> spec_wlock(t, key, a).1 == Ok::<Option<u64>, KVTableErr>(
            Some(b),
        ) && spec_wlock(t, key, a).0[key].lock == Some(a),
        t[key].lock == Some(a) ==> spec_wlock(t, key, b).1 == Err::<Option<u64>, KVTableErr>(
            KVTableErr::WouldBlock,
        ) && spec_wlock(t, key, b).0[key].lock == Some(a),
{
}

/// Garbage collection: immediately after a key's history is pruned at
/// cutoff `c`, a lookup of that key either resolves to a version written
/// at or above `c`, or reports a durability miss; no version below the
/// cutoff can be observed.
pub proof fn lemma_garbage_collection<V>(t: Map<u64, EntryModel<V>>, key: u64, c: u64, rid: u64)
    requires
        rid > 0,
    ensures
        ({
            let t2 = spec_prune(t, key, c);
            match spec_read(t2, key, rid).1 {
                Ok(p) => p.1 >= c,
                Err(e) => e == KVTableErr::DepDurable,
            }
        }),
{
    let t2 = spec_prune(t, key, c);
    if t.contains_key(key) {
        let vers2 = t[key].vers.restrict(at_least(c));
        if t2.contains_key(key) {
            if crate::kv_table::has_pred(t2[key].vers, rid) {
                let w = pred_of(t2[key].vers, rid);
                assert(max_pred_at(t2[key].vers, rid, w));
                assert(t2[key].vers.contains_key(w));
                assert(t2[key].vers == vers2);
                assert(at_least(c).contains(w));
            }
        }
    } else {
        assert(t2 == t);
        if crate::kv_table::has_pred(crate::kv_table::entry_or_empty(t2, key).vers, rid) {
            let w = pred_of(crate::kv_table::entry_or_empty(t2, key).vers, rid);
            assert(max_pred_at(crate::kv_table::entry_or_empty(t2, key).vers, rid, w));
        }
    }
}

/// The finalize rule holds of every close that releases an output: the
/// closing id was exactly the successor of the watermark, and the watermark
/// advanced to it.  Chaining this through `lemma_commit_ordering` gives the
/// strictly increasing, gapless commit order.
pub proof fn lemma_finalize_rule<T, V, A, D>(
    m: CoreModel<Wrap<T, A>, V, T::Ckpt>,
    txn: Wrap<T, A>,
    end: crate::tx::End,
    dur: D,
    m2: CoreModel<Wrap<T, A>, V, T::Ckpt>,
    d2: D,
    r: Result<
        (Option<Wrap<T, A>>, Option<Option<<T as Tx<V>>::Out>>),
        KVSparkleErr<<D as RWDurable<V, Wrap<T, A>>>::Err>,
    >,
) where
    T: Tx<V> + TxCkpt,
    V: Copy,
    A: AuxStore<V>,
    D: RWDurable<V, Wrap<T, A>>,
    T::Prp: MaybeIndexer<u64>,
    T::Mapping: Mapper<u64, V>,

    requires
        done_rel(m, txn, end, dur, m2, d2, r),
        r is Ok,
        r->Ok_0.1 is Some,
    ensures
        finalizes(m.progress, txn.sid()),
        m2.progress == txn.sid(),
{
}

/// The watermark never regresses, and it moves only when a close releases
/// an output — in which case it moves to exactly the closing id.  Together
/// with the finalize rule this gives at most one final commit per id.
pub proof fn lemma_watermark_monotone<T, V, A, D>(
    m: CoreModel<Wrap<T, A>, V, T::Ckpt>,
    txn: Wrap<T, A>,
    end: crate::tx::End,
    dur: D,
    m2: CoreModel<Wrap<T, A>, V, T::Ckpt>,
    d2: D,
    r: Result<
        (Option<Wrap<T, A>>, Option<Option<<T as Tx<V>>::Out>>),
        KVSparkleErr<<D as RWDurable<V, Wrap<T, A>>>::Err>,
    >,
) where
    T: Tx<V> + TxCkpt,
    V: Copy,
    A: AuxStore<V>,
    D: RWDurable<V, Wrap<T, A>>,
    T::Prp: MaybeIndexer<u64>,
    T::Mapping: Mapper<u64, V>,

    requires
        done_rel(m, txn, end, dur, m2, d2, r),
    ensures
        m2.progress >= m.progress,
        (match r {
            Ok((_, Some(_))) => m2.progress == txn.sid() && m2.progress > m.progress,
            _ => m2.progress == m.progress,
        }),
{
}

/// Reads never move the watermark.
pub proof fn lemma_watermark_stable_on_read<T, V, A, D>(
    m: CoreModel<Wrap<T, A>, V, T::Ckpt>,
    txn: Wrap<T, A>,
    prp: <T as Tx<V>>::Prp,
    dur: D,
    m2: CoreModel<Wrap<T, A>, V, T::Ckpt>,
    r: Result<Option<Wrap<T, A>>, KVSparkleErr<<D as RWDurable<V, Wrap<T, A>>>::Err>>,
) where
    T: Tx<V> + TxCkpt,
    V: Copy,
    A: AuxStore<V>,
    D: RWDurable<V, Wrap<T, A>>,
    T::Prp: MaybeIndexer<u64>,
    T::Mapping: Mapper<u64, V>,

    requires
        rd_rel(m, txn, prp, dur, m2, r),
    ensures
        m2.progress == m.progress,
{
}

/// The read-set only grows during a read pass: keys already observed keep
/// the value and version first recorded for them.
proof fn lemma_rdset_stable<V>(
    t: Map<u64, EntryModel<V>>,
    rd: Map<u64, (Option<V>, u64)>,
    wr: Map<u64, (Option<V>, bool)>,
    keys: Seq<u64>,
    tid: u64,
)
    ensures
        forall|k: u64|
            rd.contains_key(k) ==> #[trigger] rd_scan(t, rd, wr, keys, tid).1.contains_key(k)
                && rd_scan(t, rd, wr, keys, tid).1[k] == rd[k],
    decreases keys.len(),
{
    if keys.len() > 0 {
        lemma_rdset_stable(t, rd, wr, keys.drop_last(), tid);
        let sc = rd_scan(t, rd, wr, keys, tid);
        let p = rd_scan(t, rd, wr, keys.drop_last(), tid);
        assert forall|k: u64| rd.contains_key(k) implies #[trigger] sc.1.contains_key(k)
            && sc.1[k] == rd[k] by {
            assert(p.1.contains_key(k) && p.1[k] == rd[k]);
        }
    }
}

/// Within one logical attempt, a key already observed through a read is
/// answered again with the same observed value, never a fresh table
/// snapshot: together with the pending-write rule this means a transaction
/// never sees two different values for one key between checkpoints.
pub proof fn lemma_repeated_read_stable<V>(
    t: Map<u64, EntryModel<V>>,
    rd: Map<u64, (Option<V>, u64)>,
    wr: Map<u64, (Option<V>, bool)>,
    keys: Seq<u64>,
    tid: u64,
    i: int,
)
    requires
        0 <= i < keys.len(),
        rd.contains_key(keys[i]),
        !wr.contains_key(keys[i]),
        rd[keys[i]].0 is Some,
    ensures
        rd_scan(t, rd, wr, keys, tid).2.contains((keys[i], rd[keys[i]].0)),
    decreases keys.len(),
{
    let sc = rd_scan(t, rd, wr, keys, tid);
    let p = rd_scan(t, rd, wr, keys.drop_last(), tid);
    if i == keys.len() - 1 {
        lemma_rdset_stable(t, rd, wr, keys.drop_last(), tid);
        assert(p.1.contains_key(keys[i]) && p.1[keys[i]] == rd[keys[i]]);
        assert(sc.2.last() == (keys[i], rd[keys[i]].0));
        assert(sc.2.contains((keys[i], rd[keys[i]].0)));
    } else {
        assert(keys.drop_last()[i] == keys[i]);
        lemma_repeated_read_stable(t, rd, wr, keys.drop_last(), tid, i);
        let pr = (keys[i], rd[keys[i]].0);
        let j = choose|j: int| 0 <= j < p.2.len() && p.2[j] == pr;
        assert(sc.2.len() >= p.2.len());
        assert(sc.2[j] == pr);
        assert(sc.2.contains(pr));
    }
}

/// What is finalized is persisted: after a close that releases an output,
/// the backend holds exactly its write model applied to the committed
/// write set (the published write-set entries on Ready, nothing on Abort).
pub proof fn lemma_commit_persists<T, V, A, D>(
    m: CoreModel<Wrap<T, A>, V, T::Ckpt>,
    txn: Wrap<T, A>,
    end: crate::tx::End,
    dur: D,
    m2: CoreModel<Wrap<T, A>, V, T::Ckpt>,
    d2: D,
    r: Result<
        (Option<Wrap<T, A>>, Option<Option<<T as Tx<V>>::Out>>),
        KVSparkleErr<<D as RWDurable<V, Wrap<T, A>>>::Err>,
    >,
) where
    T: Tx<V> + TxCkpt,
    V: Copy,
    A: AuxStore<V>,
    D: RWDurable<V, Wrap<T, A>>,
    T::Prp: MaybeIndexer<u64>,
    T::Mapping: Mapper<u64, V>,

    requires
        done_rel(m, txn, end, dur, m2, d2, r),
        r is Ok,
        r->Ok_0.1 is Some,
    ensures
        ({
            let sc = pub_scan(
                m.table,
                m.reset,
                txn.sid(),
                txn.ax.s_aux().wrset.seq(),
                end is Abort,
                txn.ax.s_aux().wrpub,
            );
            exists|w2: Wrap<T, A>|
                #[trigger] w2.ax.s_aux().wrset.seq() == sc.2 && d2.model() == dur.s_wr_model(
                    &w2,
                    <T::Mapping as Mapper<u64, V>>::s_from(final_pairs(sc.2, end is Abort)),
                )
        }),
{
}

} // verus!
