//! Checks on the step-driven service: backpressure, idempotent shutdown,
//! the end-to-end scenario and determinism across protocols and runs.

use db_core::kv_sparkle::{KVSparkle, KVSparkleTx};
use db_core::kv_splice::{KVSplice, KVSpliceTx};
use db_core::null_durable::Null as NullDur;
use db_core::script::{ScriptStep, ScriptTxn};
use db_core::serial::Serial;
use db_core::service::{MThreadServiceError, StepService};
use db_core::unif::{U64Gen, U64Tup, U64Txn};

type STx = KVSparkleTx<U64Tup, ScriptTxn>;
type SparkleSvc = StepService<STx, U64Tup, KVSparkle<ScriptTxn, U64Tup>, NullDur<U64Tup, STx>>;

fn sparkle_service(workers: usize) -> SparkleSvc {
    StepService::new(workers, KVSparkle::new(), NullDur::new(0, 0, false))
}

fn script(id: u64, steps: Vec<ScriptStep>) -> STx {
    <STx>::new(ScriptTxn::new(id, steps))
}

#[test]
fn backpressure_rejects_when_not_started() {
    let mut svc = sparkle_service(0);
    let t = script(1, vec![ScriptStep::Finish(true)]);
    // before start there is no open sender: the submission is rejected
    assert!(matches!(svc.put(t), Err(MThreadServiceError::NoSenderOpen)));
}

#[test]
fn backpressure_rejects_when_queue_full() {
    // zero workers leave a queue of only the slack capacity
    let mut svc = sparkle_service(0);
    svc.start().unwrap();
    for id in 1..=4u64 {
        svc.put(script(id, vec![ScriptStep::Finish(true)])).unwrap();
    }
    // the queue is full: the transaction is handed back, never dropped
    match svc.put(script(5, vec![ScriptStep::Finish(true)])) {
        Err(MThreadServiceError::SendError(t)) => {
            assert_eq!(t.tx.id, 5);
        }
        _ => panic!("a full queue must hand the transaction back"),
    }
}

#[test]
fn pending_until_closed() {
    let mut svc = sparkle_service(2);
    svc.start().unwrap();
    svc.put(script(1, vec![ScriptStep::Work, ScriptStep::Finish(true)]))
        .unwrap();
    // before the transaction has closed, its output is a pending error
    assert!(matches!(svc.get(1), Err(MThreadServiceError::TxPending)));
    svc.run(100);
    assert_eq!(svc.get(1).unwrap(), Some(0));
    // a taken output is gone: polling again is pending once more
    assert!(matches!(svc.get(1), Err(MThreadServiceError::TxPending)));
}

#[test]
fn close_is_idempotent() {
    let mut svc = sparkle_service(2);
    svc.start().unwrap();
    assert!(svc.close().is_ok());
    // the second close never panics and reports no additional failures
    assert!(svc.close().is_ok());
}

#[test]
fn end_to_end_three_transactions() {
    let key = 1u64;
    let mut svc = sparkle_service(4);
    svc.start().unwrap();
    // transaction 2 goes first and takes the key's lock
    svc.put(script(
        2,
        vec![
            ScriptStep::Write(key, Some(1)),
            ScriptStep::Read(key),
            ScriptStep::Finish(true),
        ],
    ))
    .unwrap();
    svc.run(2);
    // transaction 1 preempts it and commits the key at 2; transaction 3
    // reads last
    svc.put(script(1, vec![ScriptStep::Write(key, Some(2)), ScriptStep::Finish(true)]))
        .unwrap();
    svc.put(script(3, vec![ScriptStep::Read(key), ScriptStep::Finish(true)]))
        .unwrap();
    svc.run(500);
    assert_eq!(svc.get(1).unwrap(), Some(0));
    // transaction 2 was forced to reset, replayed, and read its own write
    assert_eq!(svc.get(2).unwrap(), Some(1));
    // transaction 3 reads the final value of the key
    assert_eq!(svc.get(3).unwrap(), Some(1));
    // the final durable value of the key is 1, as a late reader confirms
    svc.put(script(4, vec![ScriptStep::Read(key), ScriptStep::Finish(true)]))
        .unwrap();
    svc.run(500);
    assert_eq!(svc.get(4).unwrap(), Some(1));
    assert!(svc.close().is_ok());
}

/// The first `n` transactions of the workload with nonzero ids.
fn workload(seed: u64, n: u64) -> Vec<U64Txn> {
    let mut gen = U64Gen::new(seed, (15, 15, 1, 4), 50);
    let mut txns = Vec::new();
    while (txns.len() as u64) < n {
        let t = gen.get();
        if t.id != 0 {
            txns.push(t);
        }
    }
    txns
}

fn run_workload_sparkle(seed: u64, n: u64) -> Vec<Option<u64>> {
    let con: KVSparkle<U64Txn, U64Tup> = KVSparkle::new();
    let dur: NullDur<U64Tup, KVSparkleTx<U64Tup, U64Txn>> = NullDur::new(0, 0, false);
    let mut svc = StepService::new(4, con, dur);
    svc.start().unwrap();
    for txn in workload(seed, n) {
        let mut t = <KVSparkleTx<U64Tup, U64Txn>>::new(txn);
        loop {
            match svc.put(t) {
                Ok(()) => break,
                Err(MThreadServiceError::SendError(back)) => {
                    svc.run(100);
                    t = back;
                }
                Err(_) => panic!("submission failed"),
            }
        }
    }
    let mut outs = Vec::new();
    for id in 1..=n {
        let mut rounds = 0;
        loop {
            match svc.get(id) {
                Ok(out) => {
                    outs.push(out);
                    break;
                }
                Err(_) => {
                    svc.run(2000);
                    rounds += 1;
                    assert!(rounds < 1000, "workload did not finish");
                }
            }
        }
    }
    svc.close().unwrap();
    outs
}

fn run_workload_splice(seed: u64, n: u64) -> Vec<Option<u64>> {
    let con: KVSplice<U64Txn, U64Tup> = KVSplice::new();
    let dur: NullDur<U64Tup, KVSpliceTx<U64Tup, U64Txn>> = NullDur::new(0, 0, false);
    let mut svc = StepService::new(4, con, dur);
    svc.start().unwrap();
    for txn in workload(seed, n) {
        let mut t = <KVSpliceTx<U64Tup, U64Txn>>::new(txn);
        loop {
            match svc.put(t) {
                Ok(()) => break,
                Err(MThreadServiceError::SendError(back)) => {
                    svc.run(100);
                    t = back;
                }
                Err(_) => panic!("submission failed"),
            }
        }
    }
    let mut outs = Vec::new();
    for id in 1..=n {
        let mut rounds = 0;
        loop {
            match svc.get(id) {
                Ok(out) => {
                    outs.push(out);
                    break;
                }
                Err(_) => {
                    svc.run(2000);
                    rounds += 1;
                    assert!(rounds < 1000, "workload did not finish");
                }
            }
        }
    }
    svc.close().unwrap();
    outs
}

fn run_workload_serial(seed: u64, n: u64) -> Vec<Option<u64>> {
    let con: Serial<U64Txn, U64Tup> = Serial::new();
    let dur: NullDur<U64Tup, U64Txn> = NullDur::new(0, 0, false);
    let mut svc = StepService::new(4, con, dur);
    svc.start().unwrap();
    for txn in workload(seed, n) {
        let mut t = txn;
        loop {
            match svc.put(t) {
                Ok(()) => break,
                Err(MThreadServiceError::SendError(back)) => {
                    svc.run(100);
                    t = back;
                }
                Err(_) => panic!("submission failed"),
            }
        }
    }
    let mut outs = Vec::new();
    for id in 1..=n {
        let mut rounds = 0;
        loop {
            match svc.get(id) {
                Ok(out) => {
                    outs.push(out);
                    break;
                }
                Err(_) => {
                    svc.run(2000);
                    rounds += 1;
                    assert!(rounds < 1000, "workload did not finish");
                }
            }
        }
    }
    svc.close().unwrap();
    outs
}

#[test]
fn deterministic_across_runs() {
    let a = run_workload_sparkle(1145141919810, 25);
    let b = run_workload_sparkle(1145141919810, 25);
    assert_eq!(a.len(), 25);
    assert_eq!(a, b);
}

#[test]
fn deterministic_across_engine_forms() {
    // the two published forms of the speculative engine agree exactly
    let a = run_workload_sparkle(97531, 25);
    let b = run_workload_splice(97531, 25);
    assert_eq!(a.len(), 25);
    assert_eq!(a, b);
}

#[test]
fn serial_deterministic_across_runs() {
    // the strict-order baseline is deterministic run to run as well
    let a = run_workload_serial(24680, 25);
    let b = run_workload_serial(24680, 25);
    assert_eq!(a.len(), 25);
    assert_eq!(a, b);
}
