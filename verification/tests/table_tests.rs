//! Scenario checks on the versioned table: lock priority, version lookup,
//! dependency tracking and garbage collection.

use db_core::kv_table::{KVTable, KVTableErr};

#[test]
fn lock_priority_preempts_larger_holder() {
    let mut t: KVTable<u64> = KVTable::new();
    assert!(matches!(t.wlock(7, 5), Ok(None)));
    // a smaller id preempts the holder and learns who was unseated
    assert!(matches!(t.wlock(7, 3), Ok(Some(5))));
    // the preempted writer can no longer publish
    assert!(matches!(t.write(7, Some(50), 5), Err(KVTableErr::IsPreempted)));
    // the new holder publishes fine
    assert!(matches!(t.write(7, Some(30), 3), Ok(_)));
}

#[test]
fn lock_priority_blocks_larger_id() {
    let mut t: KVTable<u64> = KVTable::new();
    assert!(matches!(t.wlock(7, 3), Ok(None)));
    // a larger id blocks behind the holder
    assert!(matches!(t.wlock(7, 9), Err(KVTableErr::WouldBlock)));
    // the holder keeps the lock: re-locking the same id is a no-op success
    assert!(matches!(t.wlock(7, 3), Ok(None)));
}

#[test]
fn read_resolves_latest_prior_version() {
    let mut t: KVTable<u64> = KVTable::new();
    assert!(matches!(t.wlock(1, 2), Ok(None)));
    assert!(matches!(t.write(1, Some(20), 2), Ok(_)));
    assert!(matches!(t.wlock(1, 5), Ok(None)));
    assert!(matches!(t.write(1, Some(50), 5), Ok(_)));
    // a reader between the two versions sees the earlier one
    assert_eq!(t.read(1, 4), Ok((Some(20), 2)));
    // a reader after both sees the later one
    assert_eq!(t.read(1, 7), Ok((Some(50), 5)));
    // a reader before both depends on the durable zero version
    assert!(matches!(t.read(1, 1), Err(KVTableErr::DepDurable)));
}

#[test]
fn write_names_stale_readers() {
    let mut t: KVTable<u64> = KVTable::new();
    assert!(matches!(t.wlock(1, 2), Ok(None)));
    assert!(matches!(t.write(1, Some(20), 2), Ok(_)));
    // readers 4 and 6 consume version 2
    assert_eq!(t.read(1, 4), Ok((Some(20), 2)));
    assert_eq!(t.read(1, 6), Ok((Some(20), 2)));
    // writer 5 slides in between: reader 6 is stale, reader 4 is not
    assert!(matches!(t.wlock(1, 5), Ok(None)));
    let vic = t.write(1, Some(55), 5).unwrap();
    let mut stale = Vec::new();
    for i in 0..vic.len() {
        stale.push(vic.idx(i));
    }
    assert_eq!(stale, vec![6]);
}

#[test]
fn prune_discards_history_below_cutoff() {
    let mut t: KVTable<u64> = KVTable::new();
    for wid in [2u64, 4, 6] {
        assert!(matches!(t.wlock(1, wid), Ok(None)));
        assert!(matches!(t.write(1, Some(wid * 10), wid), Ok(_)));
    }
    t.prune(1, 5);
    // below the cutoff nothing remains: the lookup misses to durability
    assert!(matches!(t.read(1, 3), Err(KVTableErr::DepDurable)));
    // at or above the cutoff the history is intact
    assert_eq!(t.read(1, 7), Ok((Some(60), 6)));
}

#[test]
fn unwrite_returns_dependents_and_collects_empty_keys() {
    let mut t: KVTable<u64> = KVTable::new();
    assert!(matches!(t.wlock(9, 2), Ok(None)));
    assert!(matches!(t.write(9, Some(1), 2), Ok(_)));
    assert_eq!(t.read(9, 5), Ok((Some(1), 2)));
    let deps = t.unwrite(9, 2);
    let mut rs = Vec::new();
    for i in 0..deps.len() {
        rs.push(deps.idx(i));
    }
    assert_eq!(rs, vec![5]);
    // the key emptied and was garbage-collected; a fresh read misses
    assert!(matches!(t.read(9, 5), Err(KVTableErr::DepDurable)));
}

#[test]
fn unread_and_unwlock_roll_back() {
    let mut t: KVTable<u64> = KVTable::new();
    assert!(matches!(t.wlock(3, 2), Ok(None)));
    assert!(matches!(t.write(3, Some(7), 2), Ok(_)));
    assert_eq!(t.read(3, 6), Ok((Some(7), 2)));
    t.unread(3, 6, 2);
    // reader 6 no longer counts as stale when 4 writes in between
    assert!(matches!(t.wlock(3, 4), Ok(None)));
    let vic = t.write(3, Some(8), 4).unwrap();
    assert_eq!(vic.len(), 0);
    // a lock released by its holder frees the key
    assert!(matches!(t.wlock(3, 9), Ok(None)));
    t.unwlock(3, 9);
    assert!(matches!(t.wlock(3, 1), Ok(None)));
}
