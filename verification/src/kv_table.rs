//! A key-value table with per-key write locks, version histories and
//! read-dependency tracking.
//!
//! Each key maps to an optional exclusive lock holder and an ordered history
//! of versions, one per writer id.  Lower ids always win lock contention:
//! they preempt holders with larger ids and block behind holders with
//! smaller ids.  Reads resolve to the latest version strictly before the
//! reader's id and register the reader as a dependent, so that a later
//! write between the version read and the reader can name the stale readers.

use vstd::prelude::*;

use crate::vecmap::{assoc_map, uniq_keys, lemma_assoc_contains, lemma_assoc_get, lemma_assoc_remove, lemma_assoc_update, lemma_assoc_insert_at, VecMap, VecSet};

verus! {

/// One version of a key: its writer, its value (`None` = deletion) and the
/// ids of the transactions that have read it.
pub struct Version<V> {
    pub wid: u64,
    pub val: Option<V>,
    pub deps: VecSet,
}

/// The state of one key: the lock and the version history, sorted by writer.
pub struct Entry<V> {
    pub lock: Option<u64>,
    pub vals: Vec<Version<V>>,
}

/// Mathematical model of one version.
pub ghost struct VersionModel<V> {
    pub val: Option<V>,
    pub deps: Set<u64>,
}

/// Mathematical model of one entry.
pub ghost struct EntryModel<V> {
    pub lock: Option<u64>,
    pub vers: Map<u64, VersionModel<V>>,
}

#[derive(Debug, Clone, Copy, PartialEq, Eq, Structural)]
pub enum KVTableErr {
    WouldBlock,
    IsPreempted,
    DepDurable,
}

/// A versioned table: the model is a map from key to entry model.
pub struct KVTable<V> {
    entries: VecMap<Entry<V>>,
}

pub open spec fn vmodel<V>(v: Version<V>) -> VersionModel<V> {
    VersionModel { val: v.val, deps: v.deps@ }
}

pub open spec fn vpairs<V>(s: Seq<Version<V>>) -> Seq<(u64, VersionModel<V>)> {
    s.map_values(|v: Version<V>| (v.wid, vmodel(v)))
}

/// Writer ids strictly increase along the history.
pub open spec fn sorted_wids<V>(s: Seq<Version<V>>) -> bool {
    forall|i: int, j: int| 0 <= i < j < s.len() ==> (#[trigger] s[i]).wid < (#[trigger] s[j]).wid
}

impl<V> View for Entry<V> {
    type V = EntryModel<V>;

    open spec fn view(&self) -> EntryModel<V> {
        EntryModel { lock: self.lock, vers: assoc_map(vpairs(self.vals@)) }
    }
}

impl<V> Entry<V> {
    pub open spec fn wf(&self) -> bool {
        &&& sorted_wids(self.vals@)
        &&& forall|i: int| 0 <= i < self.vals@.len() ==> (#[trigger] self.vals@[i]).deps.wf()
    }

    /// An entry with no lock and no versions is garbage.
    pub fn is_empty(&self) -> (r: bool)
        ensures
            r == (self@.lock is None && self.vals@.len() == 0),
    {
        self.lock.is_none() && self.vals.len() == 0
    }
}

impl<V> View for KVTable<V> {
    type V = Map<u64, EntryModel<V>>;

    closed spec fn view(&self) -> Map<u64, EntryModel<V>> {
        self.entries@.map_values(|e: Entry<V>| e@)
    }
}

/// `w` is the latest version strictly before `rid`.
pub open spec fn max_pred_at<V>(vers: Map<u64, VersionModel<V>>, rid: u64, w: u64) -> bool {
    &&& vers.contains_key(w)
    &&& w < rid
    &&& forall|w2: u64| vers.contains_key(w2) && w2 < rid ==> w2 <= w
}

/// Some version strictly before `rid` exists.
pub open spec fn has_pred<V>(vers: Map<u64, VersionModel<V>>, rid: u64) -> bool {
    exists|w: u64| max_pred_at(vers, rid, w)
}

/// The latest version strictly before `rid`.
pub open spec fn pred_of<V>(vers: Map<u64, VersionModel<V>>, rid: u64) -> u64 {
    choose|w: u64| max_pred_at(vers, rid, w)
}

pub proof fn lemma_pred_of_is<V>(vers: Map<u64, VersionModel<V>>, rid: u64, w: u64)
    requires
        max_pred_at(vers, rid, w),
    ensures
        has_pred(vers, rid),
        pred_of(vers, rid) == w,
{
    let w2 = pred_of(vers, rid);
    assert(max_pred_at(vers, rid, w2));
    assert(w2 <= w);
    assert(w <= w2);
}

/// The entry of `t` at `key`, or a fresh empty entry.
pub open spec fn entry_or_empty<V>(t: Map<u64, EntryModel<V>>, key: u64) -> EntryModel<V> {
    if t.contains_key(key) {
        t[key]
    } else {
        EntryModel { lock: None, vers: Map::empty() }
    }
}

/// What `read` does: register `rid` on the latest version before it, or
/// record a dependency on the implicit durable version at id zero.
pub open spec fn spec_read<V>(t: Map<u64, EntryModel<V>>, key: u64, rid: u64) -> (
    Map<u64, EntryModel<V>>,
    Result<(Option<V>, u64), KVTableErr>,
) {
    let e = entry_or_empty(t, key);
    if has_pred(e.vers, rid) {
        let w = pred_of(e.vers, rid);
        let vm = e.vers[w];
        (
            t.insert(
                key,
                EntryModel {
                    lock: e.lock,
                    vers: e.vers.insert(w, VersionModel { val: vm.val, deps: vm.deps.insert(rid) }),
                },
            ),
            Ok((vm.val, w)),
        )
    } else {
        (
            t.insert(
                key,
                EntryModel {
                    lock: e.lock,
                    vers: e.vers.insert(0, VersionModel { val: None, deps: set![rid] }),
                },
            ),
            Err(KVTableErr::DepDurable),
        )
    }
}

/// What `wlock` does: lower ids preempt larger holders and block behind
/// smaller ones.
pub open spec fn spec_wlock<V>(t: Map<u64, EntryModel<V>>, key: u64, wid: u64) -> (
    Map<u64, EntryModel<V>>,
    Result<Option<u64>, KVTableErr>,
) {
    let e = entry_or_empty(t, key);
    match e.lock {
        None => (t.insert(key, EntryModel { lock: Some(wid), vers: e.vers }), Ok(None)),
        Some(h) => if h > wid {
            (t.insert(key, EntryModel { lock: Some(wid), vers: e.vers }), Ok(Some(h)))
        } else if h == wid {
            (t, Ok(None))
        } else {
            (t, Err(KVTableErr::WouldBlock))
        },
    }
}

/// What `write` does: publish the version if the lock is still held,
/// release the lock, and name the stale readers of the preceding version.
pub open spec fn spec_write<V>(t: Map<u64, EntryModel<V>>, key: u64, val: Option<V>, wid: u64) -> (
    Map<u64, EntryModel<V>>,
    Result<Set<u64>, KVTableErr>,
) {
    let e = entry_or_empty(t, key);
    if t.contains_key(key) && e.lock == Some(wid) {
        let vics = if has_pred(e.vers, wid) {
            e.vers[pred_of(e.vers, wid)].deps.filter(|r: u64| r > wid)
        } else {
            Set::<u64>::empty()
        };
        (
            t.insert(
                key,
                EntryModel {
                    lock: None,
                    vers: e.vers.insert(wid, VersionModel { val: val, deps: Set::empty() }),
                },
            ),
            Ok(vics),
        )
    } else {
        (t, Err(KVTableErr::IsPreempted))
    }
}

/// What `unread` does: drop `rid` from the dependents of version `wid`.
pub open spec fn spec_unread<V>(t: Map<u64, EntryModel<V>>, key: u64, rid: u64, wid: u64) -> Map<
    u64,
    EntryModel<V>,
> {
    if t.contains_key(key) && t[key].vers.contains_key(wid) {
        let e = t[key];
        let vm = e.vers[wid];
        t.insert(
            key,
            EntryModel {
                lock: e.lock,
                vers: e.vers.insert(wid, VersionModel { val: vm.val, deps: vm.deps.remove(rid) }),
            },
        )
    } else {
        t
    }
}

/// What `unwrite` does: drop the version written by `wid` and hand back its
/// dependents; the key is garbage-collected when nothing remains.
pub open spec fn spec_unwrite<V>(t: Map<u64, EntryModel<V>>, key: u64, wid: u64) -> (
    Map<u64, EntryModel<V>>,
    Set<u64>,
) {
    if t.contains_key(key) && t[key].vers.contains_key(wid) {
        let e = t[key];
        let vers2 = e.vers.remove(wid);
        let t2 = if vers2.dom() == Set::<u64>::empty() && e.lock is None {
            t.remove(key)
        } else {
            t.insert(key, EntryModel { lock: e.lock, vers: vers2 })
        };
        (t2, e.vers[wid].deps)
    } else {
        (t, Set::empty())
    }
}

/// What `unwlock` does: release the lock if `wid` still holds it.
pub open spec fn spec_unwlock<V>(t: Map<u64, EntryModel<V>>, key: u64, wid: u64) -> Map<
    u64,
    EntryModel<V>,
> {
    if t.contains_key(key) && t[key].lock == Some(wid) {
        let e = t[key];
        if e.vers.dom() == Set::<u64>::empty() {
            t.remove(key)
        } else {
            t.insert(key, EntryModel { lock: None, vers: e.vers })
        }
    } else {
        t
    }
}

/// The writer ids at or above `cut`.
pub open spec fn at_least(cut: u64) -> Set<u64> {
    Set::new(|w: u64| w >= cut)
}

/// What `prune` does: discard all versions strictly below `cut` and
/// garbage-collect the key if nothing remains.
pub open spec fn spec_prune<V>(t: Map<u64, EntryModel<V>>, key: u64, cut: u64) -> Map<
    u64,
    EntryModel<V>,
> {
    if t.contains_key(key) {
        let e = t[key];
        let vers2 = e.vers.restrict(at_least(cut));
        if vers2.dom() == Set::<u64>::empty() && e.lock is None {
            t.remove(key)
        } else {
            t.insert(key, EntryModel { lock: e.lock, vers: vers2 })
        }
    } else {
        t
    }
}

impl<V: Copy> KVTable<V> {
    pub closed spec fn wf(&self) -> bool {
        &&& self.entries.wf()
        &&& forall|k: u64|
            #[trigger] self.entries@.contains_key(k) ==> self.entries@[k].wf() && (
            self.entries@[k].lock is Some || self.entries@[k].vals@.len() > 0)
    }

    /// A new, empty kv table.
    pub fn new() -> (r: Self)
        ensures
            r@ == Map::<u64, EntryModel<V>>::empty(),
            r.wf(),
    {
        let r = KVTable { entries: VecMap::new() };
        proof {
            assert(r@ =~= Map::<u64, EntryModel<V>>::empty());
        }
        r
    }
}

proof fn lemma_sorted_uniq<V>(s: Seq<Version<V>>)
    requires
        sorted_wids(s),
    ensures
        uniq_keys(vpairs(s)),
{
    assert forall|i: int, j: int| 0 <= i < j < vpairs(s).len() implies (#[trigger] vpairs(
        s,
    )[i]).0 != (#[trigger] vpairs(s)[j]).0 by {
        assert(vpairs(s)[i].0 == s[i].wid);
        assert(vpairs(s)[j].0 == s[j].wid);
    }
}

/// A writer id is in the entry model exactly when some version carries it.
proof fn lemma_entry_contains<V>(s: Seq<Version<V>>, w: u64)
    ensures
        assoc_map(vpairs(s)).contains_key(w) <==> (exists|i: int|
            0 <= i < s.len() && (#[trigger] s[i]).wid == w),
{
    lemma_assoc_contains(vpairs(s), w);
    if assoc_map(vpairs(s)).contains_key(w) {
        let i = choose|i: int| 0 <= i < vpairs(s).len() && (#[trigger] vpairs(s)[i]).0 == w;
        assert((s[i]).wid == w);
    }
    if exists|i: int| 0 <= i < s.len() && (#[trigger] s[i]).wid == w {
        let i = choose|i: int| 0 <= i < s.len() && (#[trigger] s[i]).wid == w;
        assert((vpairs(s)[i]).0 == w);
    }
}

proof fn lemma_entry_get<V>(s: Seq<Version<V>>, i: int)
    requires
        sorted_wids(s),
        0 <= i < s.len(),
    ensures
        assoc_map(vpairs(s)).contains_key(s[i].wid),
        assoc_map(vpairs(s))[s[i].wid] == vmodel(s[i]),
{
    lemma_sorted_uniq(s);
    assert(vpairs(s)[i] == (s[i].wid, vmodel(s[i])));
    lemma_assoc_get(vpairs(s), i);
}

/// Index of the version written by `wid`, if any.
fn find_wid_idx<V: Copy>(vals: &Vec<Version<V>>, wid: u64) -> (r: Option<usize>)
    ensures
        match r {
            Some(i) => i < vals@.len() && vals@[i as int].wid == wid,
            None => forall|i: int| 0 <= i < vals@.len() ==> (#[trigger] vals@[i]).wid != wid,
        },
{
    let mut i: usize = 0;
    while i < vals.len()
        invariant
            i <= vals@.len(),
            forall|j: int| 0 <= j < i ==> (#[trigger] vals@[j]).wid != wid,
        decreases vals@.len() - i,
    {
        if vals[i].wid == wid {
            return Some(i);
        }
        i = i + 1;
    }
    None
}

/// First position whose version id is at least `w`; versions before it are
/// strictly below `w`.
fn lower_bound<V: Copy>(vals: &Vec<Version<V>>, w: u64) -> (p: usize)
    requires
        sorted_wids(vals@),
    ensures
        p <= vals@.len(),
        forall|i: int| 0 <= i < p ==> (#[trigger] vals@[i]).wid < w,
        forall|i: int| p <= i < vals@.len() ==> (#[trigger] vals@[i]).wid >= w,
{
    let mut p: usize = 0;
    while p < vals.len()
        invariant
            p <= vals@.len(),
            sorted_wids(vals@),
            forall|i: int| 0 <= i < p ==> (#[trigger] vals@[i]).wid < w,
        decreases vals@.len() - p,
    {
        if vals[p].wid >= w {
            proof {
                assert forall|i: int| p <= i < vals@.len() implies (#[trigger] vals@[i]).wid
                    >= w by {
                    if i > p {
                        assert(vals@[p as int].wid < vals@[i].wid);
                    }
                }
            }
            return p;
        }
        p = p + 1;
    }
    p
}

impl<V: Copy> KVTable<V> {
    /// Read the latest version strictly before `rid`, registering `rid` as a
    /// dependent reader; report a durability miss when none is in memory.
    pub fn read(&mut self, key: u64, rid: u64) -> (r: Result<(Option<V>, u64), KVTableErr>)
        requires
            old(self).wf(),
            rid > 0,
        ensures
            final(self).wf(),
            final(self)@ == spec_read(old(self)@, key, rid).0,
            r == spec_read(old(self)@, key, rid).1,
    {
        let ghost t0 = self@;
        let ghost m0 = self.entries@;
        match self.entries.remove(key) {
            None => {
                proof {
                    assert(!t0.contains_key(key));
                    assert(!has_pred(entry_or_empty(t0, key).vers, rid));
                }
                let mut deps = VecSet::new();
                deps.insert(rid);
                let ghost dv = deps@;
                let mut vals: Vec<Version<V>> = Vec::new();
                vals.push(Version { wid: 0, val: None, deps });
                let e = Entry { lock: None, vals };
                proof {
                    let sv = e.vals@;
                    assert(sv.len() == 1);
                    assert(vpairs(sv)[0] == (0u64, vmodel(sv[0])));
                    assert(vpairs(sv).drop_last() =~= Seq::<(u64, VersionModel<V>)>::empty());
                    assert(assoc_map(Seq::<(u64, VersionModel<V>)>::empty()) =~= Map::<
                        u64,
                        VersionModel<V>,
                    >::empty());
                    assert(e@.vers == assoc_map(vpairs(sv).drop_last()).insert(
                        vpairs(sv).last().0,
                        vpairs(sv).last().1,
                    ));
                    assert(dv =~= set![rid]);
                    assert(e@.vers =~~= Map::<u64, VersionModel<V>>::empty().insert(
                        0,
                        VersionModel { val: None, deps: set![rid] },
                    ));
                    assert(e@ =~~= entry_model_miss::<V>(entry_or_empty(t0, key), rid));
                }
                self.entries.insert(key, e);
                proof {
                    assert(self.entries@ == m0.remove(key).insert(key, e));
                    assert(m0.remove(key) =~= m0);
                    assert(self@ =~~= spec_read(t0, key, rid).0);
                    assert(self.wf());
                }
                Err(KVTableErr::DepDurable)
            },
            Some(mut e) => {
                proof {
                    assert(m0.contains_key(key));
                    assert(t0.contains_key(key) && t0[key] == e@);
                    assert(e.wf());
                }
                let ghost s0 = e.vals@;
                let p = lower_bound(&e.vals, rid);
                if p == 0 {
                    proof {
                        if has_pred(e@.vers, rid) {
                            let w = pred_of(e@.vers, rid);
                            assert(max_pred_at(e@.vers, rid, w));
                            lemma_entry_contains(s0, w);
                            let i = choose|i: int| 0 <= i < s0.len() && (#[trigger] s0[i]).wid == w;
                            assert(false);
                        }
                        assert forall|i: int| 0 <= i < s0.len() implies (#[trigger] s0[i]).wid
                            != 0 by {
                            assert(s0[i].wid >= rid);
                        }
                        lemma_entry_contains(s0, 0);
                    }
                    let mut deps = VecSet::new();
                    deps.insert(rid);
                    e.vals.insert(0, Version { wid: 0, val: None, deps });
                    proof {
                        lemma_sorted_uniq(s0);
                        assert(vpairs(e.vals@) =~= vpairs(s0).insert(
                            0,
                            (0u64, VersionModel { val: None, deps: set![rid] }),
                        ));
                        assert forall|i: int| 0 <= i < vpairs(s0).len() implies (
                        #[trigger] vpairs(s0)[i]).0 != 0u64 by {
                            assert(vpairs(s0)[i].0 == s0[i].wid);
                        }
                        lemma_assoc_insert_at(
                            vpairs(s0),
                            0,
                            (0u64, VersionModel { val: None, deps: set![rid] }),
                        );
                        assert(sorted_wids(e.vals@)) by {
                            assert forall|i: int, j: int|
                                0 <= i < j < e.vals@.len() implies (#[trigger] e.vals@[i]).wid < (
                            #[trigger] e.vals@[j]).wid by {
                                if i > 0 {
                                    assert(e.vals@[i] == s0[i - 1]);
                                }
                                assert(e.vals@[j] == s0[j - 1]);
                                if i == 0 {
                                    assert(s0[j - 1].wid >= rid);
                                }
                            }
                        }
                        assert(e@ =~~= entry_model_miss::<V>(t0[key], rid));
                    }
                    self.entries.insert(key, e);
                    proof {
                        assert(self.entries@ == m0.remove(key).insert(key, e));
                        assert(m0.remove(key).insert(key, e) =~= m0.insert(key, e));
                        assert(self@ =~~= spec_read(t0, key, rid).0);
                        assert(self.wf());
                    }
                    Err(KVTableErr::DepDurable)
                } else {
                    let i = p - 1;
                    proof {
                        lemma_entry_get(s0, i as int);
                        assert(max_pred_at(e@.vers, rid, s0[i as int].wid)) by {
                            assert forall|w2: u64|
                                e@.vers.contains_key(w2) && w2 < rid implies w2 <= s0[
                            i as int].wid by {
                                lemma_entry_contains(s0, w2);
                                let j = choose|j: int|
                                    0 <= j < s0.len() && (#[trigger] s0[j]).wid == w2;
                                if j >= p {
                                    assert(s0[j].wid >= rid);
                                } else if j < i {
                                    assert(s0[j].wid < s0[i as int].wid);
                                }
                            }
                        }
                        lemma_pred_of_is(e@.vers, rid, s0[i as int].wid);
                    }
                    let mut ver = e.vals.remove(i);
                    let w = ver.wid;
                    let val = ver.val;
                    let ghost dold = ver.deps@;
                    ver.deps.insert(rid);
                    e.vals.insert(i, ver);
                    proof {
                        assert(e.vals@ =~= s0.update(i as int, e.vals@[i as int]));
                        assert(e.vals@[i as int].wid == w);
                        assert(vmodel(e.vals@[i as int]) == VersionModel {
                            val: val,
                            deps: dold.insert(rid),
                        });
                        lemma_sorted_uniq(s0);
                        assert(vpairs(e.vals@) =~= vpairs(s0).update(
                            i as int,
                            (w, vmodel(e.vals@[i as int])),
                        ));
                        assert(vpairs(s0)[i as int].0 == w);
                        lemma_assoc_update(vpairs(s0), i as int, vmodel(e.vals@[i as int]));
                        assert(sorted_wids(e.vals@)) by {
                            assert forall|a: int, b: int|
                                0 <= a < b < e.vals@.len() implies (#[trigger] e.vals@[a]).wid < (
                            #[trigger] e.vals@[b]).wid by {
                                assert(e.vals@[a].wid == s0[a].wid);
                                assert(e.vals@[b].wid == s0[b].wid);
                            }
                        }
                    }
                    self.entries.insert(key, e);
                    proof {
                        assert(self.entries@ == m0.remove(key).insert(key, e));
                        assert(m0.remove(key).insert(key, e) =~= m0.insert(key, e));
                        assert(self@ =~~= spec_read(t0, key, rid).0);
                        assert(self.wf());
                    }
                    Ok((val, w))
                }
            },
        }
    }
}

/// The entry model after a durability miss registers `rid` at id zero.
pub open spec fn entry_model_miss<V>(e: EntryModel<V>, rid: u64) -> EntryModel<V> {
    EntryModel {
        lock: e.lock,
        vers: e.vers.insert(0, VersionModel { val: None, deps: set![rid] }),
    }
}

impl<V: Copy> KVTable<V> {
    /// Acquire the write lock for `wid`: free or same-holder locks succeed,
    /// larger holders are preempted and returned, smaller holders block.
    pub fn wlock(&mut self, key: u64, wid: u64) -> (r: Result<Option<u64>, KVTableErr>)
        requires
            old(self).wf(),
            wid > 0,
        ensures
            final(self).wf(),
            final(self)@ == spec_wlock(old(self)@, key, wid).0,
            r == spec_wlock(old(self)@, key, wid).1,
    {
        let ghost t0 = self@;
        let ghost m0 = self.entries@;
        match self.entries.remove(key) {
            None => {
                proof {
                    assert(!t0.contains_key(key));
                }
                let e = Entry { lock: Some(wid), vals: Vec::new() };
                proof {
                    assert(vpairs(e.vals@) =~= Seq::<(u64, VersionModel<V>)>::empty());
                    assert(e@.vers =~~= entry_or_empty(t0, key).vers);
                }
                self.entries.insert(key, e);
                proof {
                    assert(self.entries@ == m0.remove(key).insert(key, e));
                    assert(m0.remove(key) =~= m0);
                    assert(self@ =~~= spec_wlock(t0, key, wid).0);
                    assert(self.wf());
                }
                Ok(None)
            },
            Some(mut e) => {
                proof {
                    assert(t0.contains_key(key) && t0[key] == e@);
                    assert(e.wf());
                }
                let decision: u8 = match e.lock {
                    None => 0u8,
                    Some(h) => if h > wid {
                        1u8
                    } else if h == wid {
                        2u8
                    } else {
                        3u8
                    },
                };
                if decision <= 1 {
                    let prev = e.lock;
                    e.lock = Some(wid);
                    self.entries.insert(key, e);
                    proof {
                        assert(self.entries@ == m0.remove(key).insert(key, e));
                        assert(m0.remove(key).insert(key, e) =~= m0.insert(key, e));
                        assert(self@ =~~= spec_wlock(t0, key, wid).0);
                        assert(self.wf());
                    }
                    if decision == 0 {
                        Ok(None)
                    } else {
                        Ok(prev)
                    }
                } else {
                    self.entries.insert(key, e);
                    proof {
                        assert(self.entries@ == m0.remove(key).insert(key, e));
                        assert(m0.remove(key).insert(key, e) =~= m0);
                        assert(self@ =~~= t0);
                        assert(self@ =~~= spec_wlock(t0, key, wid).0);
                        assert(self.wf());
                    }
                    if decision == 2 {
                        Ok(None)
                    } else {
                        Err(KVTableErr::WouldBlock)
                    }
                }
            },
        }
    }

    /// Publish `val` as the version at `wid` if the lock is still held;
    /// the lock is released and the stale readers of the preceding version
    /// are returned.
    #[verifier::rlimit(80)]
    pub fn write(&mut self, key: u64, val: Option<V>, wid: u64) -> (r: Result<VecSet, KVTableErr>)
        requires
            old(self).wf(),
            wid > 0,
        ensures
            final(self).wf(),
            final(self)@ == spec_write(old(self)@, key, val, wid).0,
            match r {
                Ok(vic) => spec_write(old(self)@, key, val, wid).1 is Ok && vic@ == spec_write(
                    old(self)@,
                    key,
                    val,
                    wid,
                ).1->Ok_0 && vic.wf(),
                Err(e) => spec_write(old(self)@, key, val, wid).1 == Err::<Set<u64>, KVTableErr>(e),
            },
    {
        let ghost t0 = self@;
        let ghost m0 = self.entries@;
        match self.entries.remove(key) {
            None => {
                proof {
                    assert(!t0.contains_key(key));
                    assert(m0.remove(key) =~= m0);
                    assert(self@ =~~= t0);
                }
                Err(KVTableErr::IsPreempted)
            },
            Some(mut e) => {
                proof {
                    assert(t0.contains_key(key) && t0[key] == e@);
                    assert(e.wf());
                }
                let held = match e.lock {
                    Some(h) => h == wid,
                    None => false,
                };
                if !held {
                    self.entries.insert(key, e);
                    proof {
                        assert(self.entries@ == m0.remove(key).insert(key, e));
                        assert(m0.remove(key).insert(key, e) =~= m0);
                        assert(self@ =~~= t0);
                        assert(t0[key].lock != Some(wid));
                    }
                    Err(KVTableErr::IsPreempted)
                } else {
                    let ghost s0 = e.vals@;
                    e.lock = None;
                    let p = lower_bound(&e.vals, wid);
                    // collect the stale readers of the preceding version
                    let mut vic = VecSet::new();
                    let ghost specvic = spec_write(t0, key, val, wid).1->Ok_0;
                    if p > 0 {
                        let i = p - 1;
                        proof {
                            lemma_entry_get(s0, i as int);
                            assert(max_pred_at(e@.vers, wid, s0[i as int].wid)) by {
                                assert forall|w2: u64|
                                    e@.vers.contains_key(w2) && w2 < wid implies w2 <= s0[
                                i as int].wid by {
                                    lemma_entry_contains(s0, w2);
                                    let j = choose|j: int|
                                        0 <= j < s0.len() && (#[trigger] s0[j]).wid == w2;
                                    if j >= p {
                                        assert(s0[j].wid >= wid);
                                    } else if j < i {
                                        assert(s0[j].wid < s0[i as int].wid);
                                    }
                                }
                            }
                            lemma_pred_of_is(e@.vers, wid, s0[i as int].wid);
                        }
                        let dlen = self.dep_len_of(&e, i);
                        let mut di: usize = 0;
                        while di < dlen
                            invariant
                                i < e.vals@.len(),
                                dlen == e.vals@[i as int].deps.seq().len(),
                                di <= dlen,
                                e.vals@[i as int].deps.wf(),
                                vic.wf(),
                                forall|y: u64|
                                    #[trigger] vic@.contains(y) <==> (exists|j: int|
                                        0 <= j < di && e.vals@[i as int].deps.seq()[j] == y && y
                                            > wid),
                            decreases dlen - di,
                        {
                            let d = e.vals[i].deps.idx(di);
                            if d > wid {
                                vic.insert(d);
                            }
                            proof {
                                assert forall|y: u64| #[trigger] vic@.contains(y) implies (
                                exists|j: int|
                                    0 <= j < di + 1 && e.vals@[i as int].deps.seq()[j] == y && y
                                        > wid) by {
                                    if y == d && d > wid {
                                        assert(e.vals@[i as int].deps.seq()[di as int] == y);
                                    }
                                }
                            }
                            di = di + 1;
                        }
                        proof {
                            let dseq = e.vals@[i as int].deps.seq();
                            let dset = e.vals@[i as int].deps@;
                            e.vals@[i as int].deps.lemma_members();
                            assert forall|y: u64| vic@.contains(y) <==> (dset.contains(y) && y
                                > wid) by {
                                if dset.contains(y) && y > wid {
                                    let j = choose|j: int|
                                        0 <= j < dseq.len() && dseq[j] == y;
                                    assert(vic@.contains(y));
                                }
                                if vic@.contains(y) {
                                    let j = choose|j: int|
                                        0 <= j < dseq.len() && dseq[j] == y && y > wid;
                                    assert(dseq.contains(y));
                                }
                            }
                            assert(vmodel(s0[p - 1]).deps == dset);
                            assert(vic@ =~= e@.vers[pred_of(e@.vers, wid)].deps.filter(
                                |r: u64| r > wid,
                            ));
                        }
                    } else {
                        proof {
                            if has_pred(e@.vers, wid) {
                                let w = pred_of(e@.vers, wid);
                                assert(max_pred_at(e@.vers, wid, w));
                                lemma_entry_contains(s0, w);
                                let j = choose|j: int|
                                    0 <= j < s0.len() && (#[trigger] s0[j]).wid == w;
                                assert(false);
                            }
                            assert(vic@ =~= Set::<u64>::empty());
                        }
                    }
                    // publish the version at wid
                    let nv = Version { wid, val, deps: VecSet::new() };
                    let ghost nvm = vmodel(nv);
                    let replace = p < e.vals.len() && e.vals[p].wid == wid;
                    if replace {
                        let ghost sp = e.vals@;
                        let mut cur = e.vals.remove(p);
                        e.vals.insert(p, nv);
                        proof {
                            assert(e.vals@ =~= sp.update(p as int, nv));
                            lemma_sorted_uniq(sp);
                            assert(vpairs(e.vals@) =~= vpairs(sp).update(p as int, (wid, nvm)));
                            assert(vpairs(sp)[p as int].0 == wid);
                            lemma_assoc_update(vpairs(sp), p as int, nvm);
                            assert(sorted_wids(e.vals@)) by {
                                assert forall|a: int, b: int|
                                    0 <= a < b < e.vals@.len() implies (#[trigger] e.vals@[a]).wid
                                    < (#[trigger] e.vals@[b]).wid by {
                                    assert(e.vals@[a].wid == sp[a].wid);
                                    assert(e.vals@[b].wid == sp[b].wid);
                                }
                            }
                        }
                    } else {
                        let ghost sp = e.vals@;
                        proof {
                            assert forall|j: int| 0 <= j < sp.len() implies (#[trigger] sp[j]).wid
                                != wid by {
                                if j >= p {
                                    assert(sp[j].wid >= wid);
                                    if j > p {
                                        assert(sp[p as int].wid < sp[j].wid);
                                    }
                                }
                            }
                            lemma_sorted_uniq(sp);
                            assert forall|j: int| 0 <= j < vpairs(sp).len() implies (
                            #[trigger] vpairs(sp)[j]).0 != wid by {
                                assert(vpairs(sp)[j].0 == sp[j].wid);
                            }
                        }
                        e.vals.insert(p, nv);
                        proof {
                            assert(vpairs(e.vals@) =~= vpairs(sp).insert(p as int, (wid, nvm)));
                            lemma_assoc_insert_at(vpairs(sp), p as int, (wid, nvm));
                            assert(sorted_wids(e.vals@)) by {
                                assert forall|a: int, b: int|
                                    0 <= a < b < e.vals@.len() implies (#[trigger] e.vals@[a]).wid
                                    < (#[trigger] e.vals@[b]).wid by {
                                    let a0 = if a < p {
                                        a
                                    } else {
                                        a - 1
                                    };
                                    let b0 = if b < p {
                                        b
                                    } else {
                                        b - 1
                                    };
                                    if a != p && b != p {
                                        assert(e.vals@[a] == sp[a0]);
                                        assert(e.vals@[b] == sp[b0]);
                                        if a0 < p && b0 >= p {
                                            assert(sp[a0].wid < wid);
                                            assert(sp[b0].wid >= wid);
                                        }
                                    } else if a == p {
                                        assert(e.vals@[b] == sp[b0]);
                                        assert(sp[b0].wid >= wid);
                                        assert(sp[b0].wid != wid);
                                    } else {
                                        assert(e.vals@[a] == sp[a0]);
                                        assert(sp[a0].wid < wid);
                                    }
                                }
                            }
                        }
                    }
                    self.entries.insert(key, e);
                    proof {
                        assert(e@.vers =~~= t0[key].vers.insert(wid, nvm));
                        assert(self.entries@ == m0.remove(key).insert(key, e));
                        assert(m0.remove(key).insert(key, e) =~= m0.insert(key, e));
                        assert(self@ =~~= spec_write(t0, key, val, wid).0);
                        assert(self.wf());
                    }
                    Ok(vic)
                }
            },
        }
    }

    /// Length of the dependent set of version `i`; a helper for iteration.
    fn dep_len_of(&self, e: &Entry<V>, i: usize) -> (r: usize)
        requires
            i < e.vals@.len(),
        ensures
            r == e.vals@[i as int].deps.seq().len(),
    {
        e.vals[i].deps.len()
    }
}

impl<V: Copy> KVTable<V> {
    /// Delete a read record of `rid` on the version written by `wid`.
    pub fn unread(&mut self, key: u64, rid: u64, wid: u64)
        requires
            old(self).wf(),
        ensures
            final(self).wf(),
            final(self)@ == spec_unread(old(self)@, key, rid, wid),
    {
        let ghost t0 = self@;
        let ghost m0 = self.entries@;
        match self.entries.remove(key) {
            None => {
                proof {
                    assert(!t0.contains_key(key));
                    assert(m0.remove(key) =~= m0);
                    assert(self@ =~~= spec_unread(t0, key, rid, wid));
                }
            },
            Some(mut e) => {
                proof {
                    assert(t0.contains_key(key) && t0[key] == e@);
                    assert(e.wf());
                }
                let ghost s0 = e.vals@;
                match find_wid_idx(&e.vals, wid) {
                    None => {
                        proof {
                            lemma_entry_contains(s0, wid);
                            assert(!t0[key].vers.contains_key(wid));
                        }
                        self.entries.insert(key, e);
                        proof {
                            assert(self.entries@ == m0.remove(key).insert(key, e));
                            assert(m0.remove(key).insert(key, e) =~= m0);
                            assert(self@ =~~= spec_unread(t0, key, rid, wid));
                            assert(self.wf());
                        }
                    },
                    Some(i) => {
                        proof {
                            lemma_entry_get(s0, i as int);
                        }
                        let mut ver = e.vals.remove(i);
                        let ghost dold = ver.deps@;
                        ver.deps.remove(rid);
                        e.vals.insert(i, ver);
                        proof {
                            assert(e.vals@ =~= s0.update(i as int, e.vals@[i as int]));
                            assert(vmodel(e.vals@[i as int]) == VersionModel {
                                val: s0[i as int].val,
                                deps: dold.remove(rid),
                            });
                            lemma_sorted_uniq(s0);
                            assert(vpairs(e.vals@) =~= vpairs(s0).update(
                                i as int,
                                (wid, vmodel(e.vals@[i as int])),
                            ));
                            assert(vpairs(s0)[i as int].0 == wid);
                            lemma_assoc_update(vpairs(s0), i as int, vmodel(e.vals@[i as int]));
                            assert(sorted_wids(e.vals@)) by {
                                assert forall|a: int, b: int|
                                    0 <= a < b < e.vals@.len() implies (#[trigger] e.vals@[a]).wid
                                    < (#[trigger] e.vals@[b]).wid by {
                                    assert(e.vals@[a].wid == s0[a].wid);
                                    assert(e.vals@[b].wid == s0[b].wid);
                                }
                            }
                        }
                        self.entries.insert(key, e);
                        proof {
                            assert(self.entries@ == m0.remove(key).insert(key, e));
                            assert(m0.remove(key).insert(key, e) =~= m0.insert(key, e));
                            assert(self@ =~~= spec_unread(t0, key, rid, wid));
                            assert(self.wf());
                        }
                    },
                }
            },
        }
    }

    /// Delete the version written by `wid` and return its dependent readers;
    /// the key is garbage-collected when nothing remains.
    pub fn unwrite(&mut self, key: u64, wid: u64) -> (r: VecSet)
        requires
            old(self).wf(),
        ensures
            final(self).wf(),
            final(self)@ == spec_unwrite(old(self)@, key, wid).0,
            r@ == spec_unwrite(old(self)@, key, wid).1,
            r.wf(),
    {
        let ghost t0 = self@;
        let ghost m0 = self.entries@;
        match self.entries.remove(key) {
            None => {
                proof {
                    assert(!t0.contains_key(key));
                    assert(m0.remove(key) =~= m0);
                    assert(self@ =~~= spec_unwrite(t0, key, wid).0);
                }
                VecSet::new()
            },
            Some(mut e) => {
                proof {
                    assert(t0.contains_key(key) && t0[key] == e@);
                    assert(e.wf());
                }
                let ghost s0 = e.vals@;
                match find_wid_idx(&e.vals, wid) {
                    None => {
                        proof {
                            lemma_entry_contains(s0, wid);
                            assert(!t0[key].vers.contains_key(wid));
                        }
                        self.entries.insert(key, e);
                        proof {
                            assert(self.entries@ == m0.remove(key).insert(key, e));
                            assert(m0.remove(key).insert(key, e) =~= m0);
                            assert(self@ =~~= spec_unwrite(t0, key, wid).0);
                            assert(self.wf());
                        }
                        VecSet::new()
                    },
                    Some(i) => {
                        proof {
                            lemma_entry_get(s0, i as int);
                            lemma_sorted_uniq(s0);
                            lemma_assoc_remove(vpairs(s0), i as int);
                        }
                        let ver = e.vals.remove(i);
                        proof {
                            assert(vpairs(e.vals@) =~= vpairs(s0).remove(i as int));
                            assert(e@.vers =~~= t0[key].vers.remove(wid));
                            assert(sorted_wids(e.vals@)) by {
                                assert forall|a: int, b: int|
                                    0 <= a < b < e.vals@.len() implies (#[trigger] e.vals@[a]).wid
                                    < (#[trigger] e.vals@[b]).wid by {
                                    let a0 = if a < i {
                                        a
                                    } else {
                                        a + 1
                                    };
                                    let b0 = if b < i {
                                        b
                                    } else {
                                        b + 1
                                    };
                                    assert(e.vals@[a] == s0[a0]);
                                    assert(e.vals@[b] == s0[b0]);
                                }
                            }
                            assert(e.wf());
                        }
                        if e.is_empty() {
                            proof {
                                assert(vpairs(e.vals@) =~= Seq::<(u64, VersionModel<V>)>::empty());
                                assert(e@.vers =~~= Map::<u64, VersionModel<V>>::empty());
                                assert(e@.vers.dom() =~= Set::<u64>::empty());
                                assert(self.entries@ == m0.remove(key));
                                assert(self@ =~~= t0.remove(key));
                                assert(self@ =~~= spec_unwrite(t0, key, wid).0);
                                assert(self.wf());
                            }
                        } else {
                            proof {
                                if e.vals@.len() > 0 {
                                    lemma_entry_get(e.vals@, 0);
                                    assert(e@.vers.dom().contains(e.vals@[0].wid));
                                    assert(e@.vers.dom() != Set::<u64>::empty());
                                }
                            }
                            self.entries.insert(key, e);
                            proof {
                                assert(self.entries@ == m0.remove(key).insert(key, e));
                                assert(m0.remove(key).insert(key, e) =~= m0.insert(key, e));
                                assert(self@ =~~= spec_unwrite(t0, key, wid).0);
                                assert(self.wf());
                            }
                        }
                        ver.deps
                    },
                }
            },
        }
    }

    /// Release the write lock if `wid` still holds it.
    pub fn unwlock(&mut self, key: u64, wid: u64)
        requires
            old(self).wf(),
        ensures
            final(self).wf(),
            final(self)@ == spec_unwlock(old(self)@, key, wid),
    {
        let ghost t0 = self@;
        let ghost m0 = self.entries@;
        match self.entries.remove(key) {
            None => {
                proof {
                    assert(!t0.contains_key(key));
                    assert(m0.remove(key) =~= m0);
                    assert(self@ =~~= spec_unwlock(t0, key, wid));
                }
            },
            Some(mut e) => {
                proof {
                    assert(t0.contains_key(key) && t0[key] == e@);
                    assert(e.wf());
                }
                let held = match e.lock {
                    Some(h) => h == wid,
                    None => false,
                };
                if held {
                    e.lock = None;
                    if e.vals.len() == 0 {
                        proof {
                            assert(vpairs(e.vals@) =~= Seq::<(u64, VersionModel<V>)>::empty());
                            assert(t0[key].vers =~~= Map::<u64, VersionModel<V>>::empty());
                            assert(t0[key].vers.dom() =~= Set::<u64>::empty());
                            assert(self.entries@ == m0.remove(key));
                            assert(self@ =~~= t0.remove(key));
                            assert(self@ =~~= spec_unwlock(t0, key, wid));
                            assert(self.wf());
                        }
                    } else {
                        proof {
                            lemma_entry_get(e.vals@, 0);
                            assert(t0[key].vers.dom().contains(e.vals@[0].wid));
                            assert(t0[key].vers.dom() != Set::<u64>::empty());
                        }
                        self.entries.insert(key, e);
                        proof {
                            assert(self.entries@ == m0.remove(key).insert(key, e));
                            assert(m0.remove(key).insert(key, e) =~= m0.insert(key, e));
                            assert(self@ =~~= spec_unwlock(t0, key, wid));
                            assert(self.wf());
                        }
                    }
                } else {
                    self.entries.insert(key, e);
                    proof {
                        assert(t0[key].lock != Some(wid));
                        assert(self.entries@ == m0.remove(key).insert(key, e));
                        assert(m0.remove(key).insert(key, e) =~= m0);
                        assert(self@ =~~= spec_unwlock(t0, key, wid));
                        assert(self.wf());
                    }
                }
            },
        }
    }

    /// Discard all versions strictly below `cut`, garbage-collecting the key
    /// if its history empties and no lock is held.
    #[verifier::rlimit(80)]
    #[verifier::loop_isolation(false)]
    pub fn prune(&mut self, key: u64, cut: u64)
        requires
            old(self).wf(),
        ensures
            final(self).wf(),
            final(self)@ == spec_prune(old(self)@, key, cut),
    {
        let ghost t0 = self@;
        let ghost m0 = self.entries@;
        match self.entries.remove(key) {
            None => {
                proof {
                    assert(!t0.contains_key(key));
                    assert(m0.remove(key) =~= m0);
                    assert(self@ =~~= spec_prune(t0, key, cut));
                }
            },
            Some(mut e) => {
                proof {
                    assert(t0.contains_key(key) && t0[key] == e@);
                    assert(e.wf());
                }
                let ghost s0 = e.vals@;
                let ghost mut k: int = 0;
                while e.vals.len() > 0 && e.vals[0].wid < cut
                    invariant
                        0 <= k <= s0.len(),
                        e.vals@ == s0.subrange(k, s0.len() as int),
                        e.lock == t0[key].lock,
                        forall|j: int| 0 <= j < k ==> (#[trigger] s0[j]).wid < cut,
                    decreases s0.len() - k,
                {
                    proof {
                        assert(e.vals@[0] == s0[k]);
                    }
                    e.vals.remove(0);
                    proof {
                        assert(e.vals@ =~= s0.subrange(k + 1, s0.len() as int));
                        k = k + 1;
                    }
                }
                proof {
                    assert forall|j: int| k <= j < s0.len() implies (#[trigger] s0[j]).wid
                        >= cut by {
                        assert(e.vals@.len() > 0);
                        assert(e.vals@[0] == s0[k]);
                        assert(s0[k].wid >= cut);
                        if j > k {
                            assert(s0[k].wid < s0[j].wid);
                        }
                    }
                }
                let ghost rem = e.vals@;
                proof {
                    assert(sorted_wids(rem)) by {
                        assert forall|a: int, b: int| 0 <= a < b < rem.len() implies (
                        #[trigger] rem[a]).wid < (#[trigger] rem[b]).wid by {
                            assert(rem[a] == s0[k + a]);
                            assert(rem[b] == s0[k + b]);
                        }
                    }
                    assert forall|j: int| 0 <= j < rem.len() implies (
                    #[trigger] rem[j]).deps.wf() by {
                        assert(rem[j] == s0[k + j]);
                    }
                    assert(e.wf());
                    lemma_sorted_uniq(s0);
                    lemma_sorted_uniq(rem);
                    let vers0 = t0[key].vers;
                    let vers2 = vers0.restrict(at_least(cut));
                    assert forall|w: u64|
                        #[trigger] e@.vers.contains_key(w) <==> vers2.contains_key(w) by {
                        lemma_entry_contains(rem, w);
                        lemma_entry_contains(s0, w);
                        if e@.vers.contains_key(w) {
                            let j = choose|j: int| 0 <= j < rem.len() && (#[trigger] rem[j]).wid == w;
                            assert(rem[j] == s0[k + j]);
                            assert(s0[k + j].wid >= cut);
                        }
                        if vers2.contains_key(w) {
                            let i = choose|i: int| 0 <= i < s0.len() && (#[trigger] s0[i]).wid == w;
                            assert(w >= cut);
                            assert(i >= k);
                            assert(rem[i - k] == s0[i]);
                        }
                    }
                    assert forall|w: u64| #[trigger] e@.vers.contains_key(w) implies e@.vers[w]
                        == vers2[w] by {
                        lemma_entry_contains(rem, w);
                        let j = choose|j: int| 0 <= j < rem.len() && (#[trigger] rem[j]).wid == w;
                        lemma_entry_get(rem, j);
                        assert(rem[j] == s0[k + j]);
                        lemma_entry_get(s0, k + j);
                    }
                    assert(e@.vers =~~= vers2);
                }
                if e.is_empty() {
                    proof {
                        let vers2 = t0[key].vers.restrict(at_least(cut));
                        assert(vpairs(e.vals@) =~= Seq::<(u64, VersionModel<V>)>::empty());
                        assert(vers2 =~~= Map::<u64, VersionModel<V>>::empty());
                        assert(vers2.dom() =~= Set::<u64>::empty());
                        assert(self.entries@ == m0.remove(key));
                        assert(self@ =~~= t0.remove(key));
                        assert(self@ =~~= spec_prune(t0, key, cut));
                        assert(self.wf());
                    }
                } else {
                    proof {
                        let vers2 = t0[key].vers.restrict(at_least(cut));
                        if e.vals@.len() > 0 {
                            lemma_entry_get(e.vals@, 0);
                            assert(vers2.dom().contains(e.vals@[0].wid));
                            assert(vers2.dom() != Set::<u64>::empty());
                        }
                    }
                    self.entries.insert(key, e);
                    proof {
                        assert(self.entries@ == m0.remove(key).insert(key, e));
                        assert(m0.remove(key).insert(key, e) =~= m0.insert(key, e));
                        assert(self@ =~~= spec_prune(t0, key, cut));
                        assert(self.wf());
                    }
                }
            },
        }
    }
}

} // verus!
