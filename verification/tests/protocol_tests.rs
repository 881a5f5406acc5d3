//! Scenario checks driving the speculative protocol directly: commit
//! ordering, read-your-own-writes, rollback and preemption.

use db_core::kv_sparkle::{KVSparkle, KVSparkleTx};
use db_core::kv_splice::{KVSplice, KVSpliceTx};
use db_core::null_durable::Null as NullDur;
use db_core::script::{ScriptStep, ScriptTxn};
use db_core::tx::{RWClosure, Tx};
use db_core::unif::U64Tup;

type STx = KVSparkleTx<U64Tup, ScriptTxn>;
type SDur = NullDur<U64Tup, STx>;

fn wrap(txn: ScriptTxn) -> STx {
    <STx>::new(txn)
}

/// Drive one transaction until the protocol stops handing work back,
/// recording every released output with the id it belongs to.
fn drive(
    con: &mut KVSparkle<ScriptTxn, U64Tup>,
    dur: &mut SDur,
    mut txn: STx,
    outs: &mut Vec<(u64, Option<u64>)>,
    commits: &mut Vec<u64>,
) {
    loop {
        let tid = txn.id();
        txn = match txn.go() {
            RWClosure::Op(t) => t.op(),
            RWClosure::Rd(t, prp) => match con.rd(t, prp, dur).unwrap() {
                Some(t2) => t2,
                None => return,
            },
            RWClosure::Wr(t, m) => match con.wr::<()>(t, m).unwrap() {
                Some(t2) => t2,
                None => return,
            },
            RWClosure::Cl(t, end) => {
                let (nxt, out) = con.done(t, end, dur).unwrap();
                if let Some(o) = out {
                    outs.push((tid, o));
                    commits.push(con.progress_of());
                }
                match nxt {
                    Some(t2) => t2,
                    None => return,
                }
            }
        };
    }
}

#[test]
fn commit_order_is_gapless() {
    let mut con: KVSparkle<ScriptTxn, U64Tup> = KVSparkle::new();
    let mut dur: SDur = NullDur::new(0, 0, false);
    let mut outs = Vec::new();
    let mut commits = Vec::new();
    // submit out of order: 3, 1, 2, each writing its own key
    for id in [3u64, 1, 2] {
        let t = ScriptTxn::new(
            id,
            vec![ScriptStep::Write(id, Some(id * 10)), ScriptStep::Finish(true)],
        );
        let mut w = wrap(t);
        con.open(&mut w, &dur).unwrap();
        let mut outs2 = Vec::new();
        drive(&mut con, &mut dur, w, &mut outs2, &mut commits);
        outs.extend(outs2);
    }
    // the watermark after each finalize is exactly the finalized id, and
    // the finalized ids are strictly increasing with no gaps
    assert_eq!(commits, vec![1, 2, 3]);
    let finalized: Vec<u64> = outs.iter().map(|p| p.0).collect();
    assert_eq!(finalized, vec![1, 2, 3]);
    assert_eq!(con.progress_of(), 3);
}

#[test]
fn read_your_own_writes() {
    let mut con: KVSparkle<ScriptTxn, U64Tup> = KVSparkle::new();
    let mut dur: SDur = NullDur::new(0, 0, false);
    // a transaction that writes key 5 and then reads it back observes its
    // own pending value, not a table snapshot
    let t = ScriptTxn::new(
        1,
        vec![
            ScriptStep::Write(5, Some(77)),
            ScriptStep::Read(5),
            ScriptStep::Finish(true),
        ],
    );
    let mut w = wrap(t);
    con.open(&mut w, &dur).unwrap();
    let mut outs = Vec::new();
    let mut commits = Vec::new();
    drive(&mut con, &mut dur, w, &mut outs, &mut commits);
    assert_eq!(outs, vec![(1, Some(77))]);
}

#[test]
fn preemption_resets_and_replays() {
    let mut con: KVSparkle<ScriptTxn, U64Tup> = KVSparkle::new();
    let mut dur: SDur = NullDur::new(0, 0, false);
    let key = 1u64;
    // transaction 2 locks the key first
    let t2 = ScriptTxn::new(
        2,
        vec![
            ScriptStep::Write(key, Some(1)),
            ScriptStep::Read(key),
            ScriptStep::Finish(true),
        ],
    );
    let mut w2 = wrap(t2);
    con.open(&mut w2, &dur).unwrap();
    // drive 2 only through its write, so it holds the lock
    let w2 = match w2.go() {
        RWClosure::Wr(t, m) => con.wr::<()>(t, m).unwrap().unwrap(),
        _ => panic!("transaction 2 must start with a write"),
    };
    // transaction 1 preempts the lock and commits the key at 2
    let t1 = ScriptTxn::new(
        1,
        vec![ScriptStep::Write(key, Some(2)), ScriptStep::Finish(true)],
    );
    let mut w1 = wrap(t1);
    con.open(&mut w1, &dur).unwrap();
    let mut outs = Vec::new();
    let mut commits = Vec::new();
    drive(&mut con, &mut dur, w1, &mut outs, &mut commits);
    assert_eq!(outs, vec![(1, Some(0))]);
    assert_eq!(con.progress_of(), 1);
    // transaction 2 is marked for rollback: its next step resets and
    // replays it from its checkpoint; it then commits its own value and
    // reads it back
    drive(&mut con, &mut dur, w2, &mut outs, &mut commits);
    assert_eq!(outs, vec![(1, Some(0)), (2, Some(1))]);
    assert_eq!(con.progress_of(), 2);
    // a later reader observes the replayed transaction's value
    let t3 = ScriptTxn::new(3, vec![ScriptStep::Read(key), ScriptStep::Finish(true)]);
    let mut w3 = wrap(t3);
    con.open(&mut w3, &dur).unwrap();
    drive(&mut con, &mut dur, w3, &mut outs, &mut commits);
    assert_eq!(outs.last(), Some(&(3, Some(1))));
}

#[test]
fn aborts_consume_their_commit_slot() {
    let mut con: KVSparkle<ScriptTxn, U64Tup> = KVSparkle::new();
    let mut dur: SDur = NullDur::new(0, 0, false);
    let t1 = ScriptTxn::new(
        1,
        vec![ScriptStep::Write(4, Some(9)), ScriptStep::Finish(false)],
    );
    let mut w1 = wrap(t1);
    con.open(&mut w1, &dur).unwrap();
    let mut outs = Vec::new();
    let mut commits = Vec::new();
    drive(&mut con, &mut dur, w1, &mut outs, &mut commits);
    // the abort released its output slot as None and advanced the watermark
    assert_eq!(outs, vec![(1, None)]);
    assert_eq!(con.progress_of(), 1);
    // the aborted write is invisible to a later reader
    let t2 = ScriptTxn::new(2, vec![ScriptStep::Read(4), ScriptStep::Finish(true)]);
    let mut w2 = wrap(t2);
    con.open(&mut w2, &dur).unwrap();
    drive(&mut con, &mut dur, w2, &mut outs, &mut commits);
    assert_eq!(outs.last(), Some(&(2, Some(0))));
}

#[test]
fn splice_matches_sparkle_on_a_script() {
    // the splice form runs the same engine behind one indirection
    let mut con: KVSplice<ScriptTxn, U64Tup> = KVSplice::new();
    let mut dur: NullDur<U64Tup, KVSpliceTx<U64Tup, ScriptTxn>> = NullDur::new(0, 0, false);
    let t1 = ScriptTxn::new(
        1,
        vec![
            ScriptStep::Write(5, Some(77)),
            ScriptStep::Read(5),
            ScriptStep::Finish(true),
        ],
    );
    let mut w1 = <KVSpliceTx<U64Tup, ScriptTxn>>::new(t1);
    con.open(&mut w1, &dur).unwrap();
    let mut txn = w1;
    let mut out = None;
    loop {
        txn = match txn.go() {
            RWClosure::Op(t) => t.op(),
            RWClosure::Rd(t, prp) => match con.rd(t, prp, &dur).unwrap() {
                Some(t2) => t2,
                None => break,
            },
            RWClosure::Wr(t, m) => match con.wr::<()>(t, m).unwrap() {
                Some(t2) => t2,
                None => break,
            },
            RWClosure::Cl(t, end) => {
                let (nxt, o) = con.done(t, end, &mut dur).unwrap();
                if let Some(o) = o {
                    out = Some(o);
                }
                match nxt {
                    Some(t2) => t2,
                    None => break,
                }
            }
        };
    }
    assert_eq!(out, Some(Some(77)));
}
