//! Small association containers keyed by transaction or entry ids.
//!
//! Every shared structure of the engine (version histories, pools, pending
//! maps) is modelled on these containers; their mathematical views are
//! `Map<u64, T>` and `Set<u64>`.

use vstd::prelude::*;

verus! {

/// The map described by an association list, later pairs winning.
pub open spec fn assoc_map<T>(s: Seq<(u64, T)>) -> Map<u64, T>
    decreases s.len(),
{
    if s.len() == 0 {
        Map::empty()
    } else {
        assoc_map(s.drop_last()).insert(s.last().0, s.last().1)
    }
}

/// No two pairs of the list share a key.
pub open spec fn uniq_keys<T>(s: Seq<(u64, T)>) -> bool {
    forall|i: int, j: int|
        0 <= i < j < s.len() ==> (#[trigger] s[i]).0 != (#[trigger] s[j]).0
}

/// No member of the vector repeats.
pub open spec fn uniq_u64(s: Seq<u64>) -> bool {
    forall|i: int, j: int| 0 <= i < j < s.len() ==> s[i] != s[j]
}

pub proof fn lemma_assoc_contains<T>(s: Seq<(u64, T)>, k: u64)
    ensures
        assoc_map(s).contains_key(k) <==> (exists|i: int|
            0 <= i < s.len() && (#[trigger] s[i]).0 == k),
    decreases s.len(),
{
    if s.len() > 0 {
        lemma_assoc_contains(s.drop_last(), k);
        if s.last().0 == k {
            assert((s[s.len() - 1]).0 == k);
        } else if assoc_map(s).contains_key(k) {
            let i = choose|i: int|
                0 <= i < s.drop_last().len() && (#[trigger] s.drop_last()[i]).0 == k;
            assert((s[i]).0 == k);
        } else if exists|i: int| 0 <= i < s.len() && (#[trigger] s[i]).0 == k {
            let i = choose|i: int| 0 <= i < s.len() && (#[trigger] s[i]).0 == k;
            assert(i < s.len() - 1);
            assert((s.drop_last()[i]).0 == k);
        }
    }
}

pub proof fn lemma_assoc_get<T>(s: Seq<(u64, T)>, i: int)
    requires
        uniq_keys(s),
        0 <= i < s.len(),
    ensures
        assoc_map(s).contains_key(s[i].0),
        assoc_map(s)[s[i].0] == s[i].1,
    decreases s.len(),
{
    if i < s.len() - 1 {
        lemma_assoc_get(s.drop_last(), i);
        assert(s.drop_last()[i] == s[i]);
        assert(s.last().0 != s[i].0);
    }
}

pub proof fn lemma_uniq_remove<T>(s: Seq<(u64, T)>, i: int)
    requires
        uniq_keys(s),
        0 <= i < s.len(),
    ensures
        uniq_keys(s.remove(i)),
{
    assert forall|a: int, b: int| 0 <= a < b < s.remove(i).len() implies (#[trigger] s.remove(
        i,
    )[a]).0 != (#[trigger] s.remove(i)[b]).0 by {
        let a0 = if a < i {
            a
        } else {
            a + 1
        };
        let b0 = if b < i {
            b
        } else {
            b + 1
        };
        assert(s.remove(i)[a] == s[a0]);
        assert(s.remove(i)[b] == s[b0]);
    }
}

pub proof fn lemma_assoc_remove<T>(s: Seq<(u64, T)>, i: int)
    requires
        uniq_keys(s),
        0 <= i < s.len(),
    ensures
        assoc_map(s.remove(i)) == assoc_map(s).remove(s[i].0),
    decreases s.len(),
{
    let k = s[i].0;
    if i == s.len() - 1 {
        assert(s.remove(i) =~= s.drop_last());
        lemma_assoc_contains(s.drop_last(), k);
        assert(!assoc_map(s.drop_last()).contains_key(k));
        assert(assoc_map(s.drop_last()) =~= assoc_map(s.drop_last()).insert(k, s[i].1).remove(k));
    } else {
        assert(s.remove(i).last() == s.last());
        assert(s.remove(i).drop_last() =~= s.drop_last().remove(i));
        lemma_assoc_remove(s.drop_last(), i);
        assert(s.drop_last()[i] == s[i]);
        assert(s.last().0 != k);
        assert(assoc_map(s.drop_last()).remove(k).insert(s.last().0, s.last().1) =~= assoc_map(
            s.drop_last(),
        ).insert(s.last().0, s.last().1).remove(k));
    }
}

pub proof fn lemma_assoc_update<T>(s: Seq<(u64, T)>, i: int, t: T)
    requires
        uniq_keys(s),
        0 <= i < s.len(),
    ensures
        assoc_map(s.update(i, (s[i].0, t))) == assoc_map(s).insert(s[i].0, t),
    decreases s.len(),
{
    let k = s[i].0;
    let s2 = s.update(i, (k, t));
    if i == s.len() - 1 {
        assert(s2.drop_last() =~= s.drop_last());
        assert(s2.last() == (k, t));
        assert(assoc_map(s.drop_last()).insert(k, t) =~= assoc_map(s.drop_last()).insert(
            k,
            s.last().1,
        ).insert(k, t));
    } else {
        assert(s2.last() == s.last());
        assert(s2.drop_last() =~= s.drop_last().update(i, (k, t)));
        lemma_assoc_update(s.drop_last(), i, t);
        assert(s.drop_last()[i] == s[i]);
        assert(s.last().0 != k);
        assert(assoc_map(s.drop_last()).insert(k, t).insert(s.last().0, s.last().1) =~= assoc_map(
            s.drop_last(),
        ).insert(s.last().0, s.last().1).insert(k, t));
    }
}


/// The first position carrying key `k`, scanning from the front.
pub open spec fn find_first<T>(s: Seq<(u64, T)>, k: u64) -> Option<int>
    decreases s.len(),
{
    if s.len() == 0 {
        None
    } else if s.first().0 == k {
        Some(0)
    } else {
        match find_first(s.drop_first(), k) {
            Some(i) => Some(i + 1),
            None => None,
        }
    }
}

/// The sequence after an insert: any first stale pair for the key is
/// dropped and the new pair goes to the back.
pub open spec fn assoc_seq_insert<T>(s: Seq<(u64, T)>, k: u64, t: T) -> Seq<(u64, T)> {
    match find_first(s, k) {
        Some(i) => s.remove(i).push((k, t)),
        None => s.push((k, t)),
    }
}

/// The sequence after a removal of the key, if it was present.
pub open spec fn assoc_seq_remove<T>(s: Seq<(u64, T)>, k: u64) -> Seq<(u64, T)> {
    match find_first(s, k) {
        Some(i) => s.remove(i),
        None => s,
    }
}

/// A first match, characterized: the key at `i` and no key before it.
pub proof fn lemma_find_first_at<T>(s: Seq<(u64, T)>, k: u64, i: int)
    requires
        0 <= i < s.len(),
        s[i].0 == k,
        forall|j: int| 0 <= j < i ==> (#[trigger] s[j]).0 != k,
    ensures
        find_first(s, k) == Some(i),
    decreases s.len(),
{
    if s.first().0 == k {
        assert(i == 0);
    } else {
        assert(i > 0);
        assert(s.drop_first()[i - 1] == s[i]);
        assert forall|j: int| 0 <= j < i - 1 implies (#[trigger] s.drop_first()[j]).0 != k by {
            assert(s.drop_first()[j] == s[j + 1]);
        }
        lemma_find_first_at(s.drop_first(), k, i - 1);
    }
}

/// No match anywhere means no first match.
pub proof fn lemma_find_first_none<T>(s: Seq<(u64, T)>, k: u64)
    requires
        forall|j: int| 0 <= j < s.len() ==> (#[trigger] s[j]).0 != k,
    ensures
        find_first(s, k) is None,
    decreases s.len(),
{
    if s.len() > 0 {
        assert forall|j: int| 0 <= j < s.drop_first().len() implies (#[trigger] s.drop_first()[
        j]).0 != k by {
            assert(s.drop_first()[j] == s[j + 1]);
        }
        lemma_find_first_none(s.drop_first(), k);
    }
}

/// An id-keyed map stored as an association vector with unique keys.
#[derive(Debug)]
pub struct VecMap<T> {
    v: Vec<(u64, T)>,
}

impl<T> View for VecMap<T> {
    type V = Map<u64, T>;

    closed spec fn view(&self) -> Map<u64, T> {
        assoc_map(self.v@)
    }
}

impl<T> VecMap<T> {
    /// The underlying sequence of pairs, for iteration orders.
    pub closed spec fn seq(&self) -> Seq<(u64, T)> {
        self.v@
    }

    pub closed spec fn wf(&self) -> bool {
        uniq_keys(self.v@)
    }

    pub proof fn lemma_view(&self)
        ensures
            self@ == assoc_map(self.seq()),
            self.wf() == uniq_keys(self.seq()),
    {
    }

    pub fn new() -> (r: Self)
        ensures
            r@ == Map::<u64, T>::empty(),
            r.seq() == Seq::<(u64, T)>::empty(),
            r.wf(),
    {
        VecMap { v: Vec::new() }
    }

    pub fn len(&self) -> (r: usize)
        ensures
            r == self.seq().len(),
    {
        self.v.len()
    }

    pub fn get_pair(&self, i: usize) -> (r: &(u64, T))
        requires
            i < self.seq().len(),
        ensures
            *r == self.seq()[i as int],
    {
        &self.v[i]
    }

    /// Replace the value of the pair at `i`, keeping its key.
    pub fn set_at(&mut self, i: usize, t: T)
        requires
            old(self).wf(),
            i < old(self).seq().len(),
        ensures
            final(self).wf(),
            final(self).seq() == old(self).seq().update(
                i as int,
                (old(self).seq()[i as int].0, t),
            ),
            final(self)@ == old(self)@.insert(old(self).seq()[i as int].0, t),
    {
        let k = self.v[i].0;
        let ghost sold = self.v@;
        self.v.remove(i);
        self.v.insert(i, (k, t));
        proof {
            let ii = i as int;
            assert(self.v@ =~= sold.update(ii, (k, t)));
            assert(uniq_keys(self.v@)) by {
                assert forall|a: int, b: int| 0 <= a < b < self.v@.len() implies (
                #[trigger] self.v@[a]).0 != (#[trigger] self.v@[b]).0 by {
                    assert(self.v@[a].0 == sold[a].0);
                    assert(self.v@[b].0 == sold[b].0);
                }
            }
            lemma_assoc_update(sold, ii, t);
        }
    }

    fn find(&self, k: u64) -> (r: Option<usize>)
        ensures
            match r {
                Some(i) => i < self.v@.len() && self.v@[i as int].0 == k && find_first(
                    self.v@,
                    k,
                ) == Some(i as int),
                None => (forall|i: int|
                    0 <= i < self.v@.len() ==> (#[trigger] self.v@[i]).0 != k) && find_first(
                    self.v@,
                    k,
                ) is None,
            },
    {
        let mut i: usize = 0;
        while i < self.v.len()
            invariant
                i <= self.v@.len(),
                forall|j: int| 0 <= j < i ==> (#[trigger] self.v@[j]).0 != k,
            decreases self.v@.len() - i,
        {
            if self.v[i].0 == k {
                proof {
                    lemma_find_first_at(self.v@, k, i as int);
                }
                return Some(i);
            }
            i = i + 1;
        }
        proof {
            lemma_find_first_none(self.v@, k);
        }
        None
    }

    pub fn contains_key(&self, k: u64) -> (r: bool)
        ensures
            r == self@.contains_key(k),
    {
        proof {
            lemma_assoc_contains(self.v@, k);
        }
        self.find(k).is_some()
    }

    pub fn get(&self, k: u64) -> (r: Option<&T>)
        requires
            self.wf(),
        ensures
            match r {
                Some(t) => self@.contains_key(k) && *t == self@[k],
                None => !self@.contains_key(k),
            },
    {
        proof {
            lemma_assoc_contains(self.v@, k);
        }
        match self.find(k) {
            Some(i) => {
                proof {
                    lemma_assoc_get(self.v@, i as int);
                }
                Some(&self.v[i].1)
            },
            None => None,
        }
    }

    /// Insert `t` at `k`, replacing any stale pair for that key.
    pub fn insert(&mut self, k: u64, t: T)
        requires
            old(self).wf(),
        ensures
            final(self).wf(),
            final(self)@ == old(self)@.insert(k, t),
            final(self).seq() == assoc_seq_insert(old(self).seq(), k, t),
            final(self).seq().len() <= old(self).seq().len() + 1,
    {
        match self.find(k) {
            Some(i) => {
                proof {
                    lemma_assoc_remove(self.v@, i as int);
                    lemma_uniq_remove(self.v@, i as int);
                }
                self.v.remove(i);
            },
            None => (),
        }
        let ghost smid = self.v@;
        proof {
            lemma_assoc_contains(smid, k);
            assert(!assoc_map(smid).contains_key(k));
        }
        self.v.push((k, t));
        proof {
            assert(self.v@.drop_last() =~= smid);
            assert(self.v@.last() == (k, t));
            assert(uniq_keys(self.v@)) by {
                assert forall|a: int, b: int| 0 <= a < b < self.v@.len() implies (
                #[trigger] self.v@[a]).0 != (#[trigger] self.v@[b]).0 by {
                    if b == self.v@.len() - 1 {
                        assert(self.v@[a] == smid[a]);
                        assert(smid[a].0 != k);
                    } else {
                        assert(self.v@[a] == smid[a]);
                        assert(self.v@[b] == smid[b]);
                    }
                }
            }
            assert(assoc_map(self.v@) == assoc_map(smid).insert(k, t));
            assert(assoc_map(smid).insert(k, t) =~= old(self)@.insert(k, t));
        }
    }

    pub fn remove(&mut self, k: u64) -> (r: Option<T>)
        requires
            old(self).wf(),
        ensures
            final(self).wf(),
            final(self)@ == old(self)@.remove(k),
            final(self).seq() == assoc_seq_remove(old(self).seq(), k),
            match r {
                Some(t) => old(self)@.contains_key(k) && t == old(self)@[k],
                None => !old(self)@.contains_key(k),
            },
    {
        proof {
            lemma_assoc_contains(self.v@, k);
        }
        match self.find(k) {
            Some(i) => {
                proof {
                    lemma_assoc_get(self.v@, i as int);
                    lemma_assoc_remove(self.v@, i as int);
                    lemma_uniq_remove(self.v@, i as int);
                }
                let (_, t) = self.v.remove(i);
                Some(t)
            },
            None => {
                proof {
                    assert(old(self)@ =~= old(self)@.remove(k));
                }
                None
            },
        }
    }

    /// Remove and return the last pair of the sequence.
    pub fn pop(&mut self) -> (r: Option<(u64, T)>)
        requires
            old(self).wf(),
        ensures
            final(self).wf(),
            match r {
                Some(p) => old(self).seq().len() > 0 && p == old(self).seq().last()
                    && final(self).seq() == old(self).seq().drop_last()
                    && old(self)@.contains_key(p.0) && old(self)@[p.0] == p.1
                    && final(self)@ == old(self)@.remove(p.0),
                None => old(self).seq().len() == 0 && final(self).seq() == old(self).seq()
                    && final(self)@ == old(self)@,
            },
    {
        let ghost sold = self.v@;
        proof {
            if sold.len() > 0 {
                lemma_assoc_get(sold, sold.len() - 1);
                lemma_assoc_remove(sold, sold.len() - 1);
                lemma_uniq_remove(sold, sold.len() - 1);
                assert(sold.remove(sold.len() - 1) =~= sold.drop_last());
            }
        }
        let r = self.v.pop();
        proof {
            if sold.len() > 0 {
                assert(self.v@ =~= sold.drop_last());
            }
        }
        r
    }

    /// The least key of the map, if any.
    pub fn min_key(&self) -> (r: Option<u64>)
        requires
            self.wf(),
        ensures
            match r {
                Some(k) => self@.contains_key(k) && forall|k2: u64|
                    #[trigger] self@.contains_key(k2) ==> k <= k2,
                None => self@ == Map::<u64, T>::empty(),
            },
    {
        if self.v.len() == 0 {
            proof {
                assert(self@ =~= Map::<u64, T>::empty());
            }
            return None;
        }
        let mut best: u64 = self.v[0].0;
        let mut i: usize = 1;
        while i < self.v.len()
            invariant
                1 <= i <= self.v@.len(),
                exists|j: int| 0 <= j < i && (#[trigger] self.v@[j]).0 == best,
                forall|j: int| 0 <= j < i ==> best <= (#[trigger] self.v@[j]).0,
            decreases self.v@.len() - i,
        {
            if self.v[i].0 < best {
                best = self.v[i].0;
            }
            i = i + 1;
        }
        proof {
            lemma_assoc_contains(self.v@, best);
            assert forall|k2: u64| #[trigger] self@.contains_key(k2) implies best <= k2 by {
                lemma_assoc_contains(self.v@, k2);
            }
        }
        Some(best)
    }
}

/// Inserting a pair with a fresh key anywhere in the list inserts it in the map.
pub proof fn lemma_assoc_insert_at<T>(s: Seq<(u64, T)>, p: int, pr: (u64, T))
    requires
        uniq_keys(s),
        0 <= p <= s.len(),
        forall|i: int| 0 <= i < s.len() ==> (#[trigger] s[i]).0 != pr.0,
    ensures
        assoc_map(s.insert(p, pr)) == assoc_map(s).insert(pr.0, pr.1),
        uniq_keys(s.insert(p, pr)),
    decreases s.len(),
{
    let s2 = s.insert(p, pr);
    assert forall|a: int, b: int| 0 <= a < b < s2.len() implies (#[trigger] s2[a]).0 != (
    #[trigger] s2[b]).0 by {
        if a != p && b != p {
            let a0 = if a < p {
                a
            } else {
                a - 1
            };
            let b0 = if b < p {
                b
            } else {
                b - 1
            };
            assert(s2[a] == s[a0]);
            assert(s2[b] == s[b0]);
        } else if a == p {
            assert(s2[b] == s[b - 1]);
        } else {
            assert(s2[a] == s[a]);
        }
    }
    if p == s.len() {
        assert(s2 =~= s.push(pr));
        assert(s.push(pr).drop_last() =~= s);
    } else {
        assert(s2.last() == s.last());
        assert(s2.drop_last() =~= s.drop_last().insert(p, pr));
        lemma_assoc_insert_at(s.drop_last(), p, pr);
        assert(s.last().0 != pr.0);
        assert(assoc_map(s.drop_last()).insert(pr.0, pr.1).insert(s.last().0, s.last().1)
            =~= assoc_map(s.drop_last()).insert(s.last().0, s.last().1).insert(pr.0, pr.1));
    }
}

/// A set of ids stored as a duplicate-free vector; its view is `Set<u64>`.
#[derive(Debug)]
pub struct VecSet {
    v: Vec<u64>,
}

impl View for VecSet {
    type V = Set<u64>;

    closed spec fn view(&self) -> Set<u64> {
        self.v@.to_set()
    }
}

impl VecSet {
    pub closed spec fn seq(&self) -> Seq<u64> {
        self.v@
    }

    pub closed spec fn wf(&self) -> bool {
        uniq_u64(self.v@)
    }

    pub proof fn lemma_members(&self)
        ensures
            forall|x: u64| #[trigger] self@.contains(x) <==> self.seq().contains(x),
    {
    }

    /// The view is the set of members of the sequence.
    pub proof fn lemma_view_seq(&self)
        ensures
            self@ == self.seq().to_set(),
    {
    }

    pub fn new() -> (r: Self)
        ensures
            r@ == Set::<u64>::empty(),
            r.wf(),
    {
        let r = VecSet { v: Vec::new() };
        proof {
            assert(r@ =~= Set::<u64>::empty());
        }
        r
    }

    pub fn contains(&self, x: u64) -> (r: bool)
        ensures
            r == self@.contains(x),
    {
        let mut i: usize = 0;
        while i < self.v.len()
            invariant
                i <= self.v@.len(),
                forall|j: int| 0 <= j < i ==> self.v@[j] != x,
            decreases self.v@.len() - i,
        {
            if self.v[i] == x {
                proof {
                    assert(self.v@.contains(x));
                }
                return true;
            }
            i = i + 1;
        }
        proof {
            if self.v@.contains(x) {
                let j = choose|j: int| 0 <= j < self.v@.len() && self.v@[j] == x;
                assert(false);
            }
        }
        false
    }

    pub fn insert(&mut self, x: u64)
        requires
            old(self).wf(),
        ensures
            final(self).wf(),
            final(self)@ == old(self)@.insert(x),
    {
        if !self.contains(x) {
            let ghost sold = self.v@;
            self.v.push(x);
            proof {
                assert forall|y: u64| self.v@.to_set().contains(y) <==> sold.to_set().insert(
                    x,
                ).contains(y) by {
                    if self.v@.contains(y) {
                        let j = choose|j: int| 0 <= j < self.v@.len() && self.v@[j] == y;
                        if j < sold.len() {
                            assert(sold[j] == y);
                            assert(sold.contains(y));
                        }
                    }
                    if sold.contains(y) {
                        let j = choose|j: int| 0 <= j < sold.len() && sold[j] == y;
                        assert(self.v@[j] == y);
                        assert(self.v@.contains(y));
                    }
                    if y == x {
                        assert(self.v@[self.v@.len() - 1] == x);
                        assert(self.v@.contains(x));
                    }
                }
                assert(self.v@.to_set() =~= sold.to_set().insert(x));
                assert(uniq_u64(self.v@)) by {
                    assert forall|a: int, b: int|
                        0 <= a < b < self.v@.len() implies self.v@[a] != self.v@[b] by {
                        if b == self.v@.len() - 1 {
                            assert(self.v@[a] == sold[a]);
                            assert(sold.contains(sold[a]));
                        } else {
                            assert(self.v@[a] == sold[a]);
                            assert(self.v@[b] == sold[b]);
                        }
                    }
                }
            }
        } else {
            proof {
                assert(self.v@.to_set() =~= self.v@.to_set().insert(x));
            }
        }
    }

    pub fn remove(&mut self, x: u64)
        requires
            old(self).wf(),
        ensures
            final(self).wf(),
            final(self)@ == old(self)@.remove(x),
    {
        let mut i: usize = 0;
        let ghost sold = self.v@;
        while i < self.v.len()
            invariant
                i <= self.v@.len(),
                self.v@ == sold,
                old(self).seq() == sold,
                old(self)@ == sold.to_set(),
                forall|j: int| 0 <= j < i ==> self.v@[j] != x,
                uniq_u64(sold),
            decreases self.v@.len() - i,
        {
            if self.v[i] == x {
                let ghost ii = i as int;
                self.v.remove(i);
                proof {
                    assert(self.v@ == sold.remove(ii));
                    assert forall|a: int, b: int|
                        0 <= a < b < self.v@.len() implies self.v@[a] != self.v@[b] by {
                        let a0 = if a < ii {
                            a
                        } else {
                            a + 1
                        };
                        let b0 = if b < ii {
                            b
                        } else {
                            b + 1
                        };
                        assert(self.v@[a] == sold[a0]);
                        assert(self.v@[b] == sold[b0]);
                    }
                    assert forall|y: u64| self.v@.to_set().contains(y) <==> sold.to_set().remove(
                        x,
                    ).contains(y) by {
                        if self.v@.contains(y) {
                            let j = choose|j: int| 0 <= j < self.v@.len() && self.v@[j] == y;
                            let j0 = if j < ii {
                                j
                            } else {
                                j + 1
                            };
                            assert(sold[j0] == y);
                            assert(sold.contains(y));
                            if y == x {
                                assert(sold[ii] == x);
                                assert(false);
                            }
                        }
                        if sold.contains(y) && y != x {
                            let j = choose|j: int| 0 <= j < sold.len() && sold[j] == y;
                            if j < ii {
                                assert(self.v@[j] == y);
                            } else {
                                assert(j != ii);
                                assert(self.v@[j - 1] == y);
                            }
                            assert(self.v@.contains(y));
                        }
                    }
                    assert(self.v@.to_set() =~= sold.to_set().remove(x));
                }
                return ;
            }
            i = i + 1;
        }
        proof {
            if sold.contains(x) {
                let j = choose|j: int| 0 <= j < sold.len() && sold[j] == x;
                assert(false);
            }
            assert(self.v@.to_set() =~= sold.to_set().remove(x));
        }
    }

    /// Remove and return some member, the last of the vector.
    pub fn pop(&mut self) -> (r: Option<u64>)
        requires
            old(self).wf(),
        ensures
            final(self).wf(),
            match r {
                Some(x) => old(self)@.contains(x) && final(self)@ == old(self)@.remove(x),
                None => old(self)@ == Set::<u64>::empty() && final(self).seq() == old(self).seq()
                    && final(self)@ == old(self)@,
            },
    {
        let ghost sold = self.v@;
        let r = self.v.pop();
        proof {
            match r {
                Some(x) => {
                    assert(sold[sold.len() - 1] == x);
                    assert(sold.contains(x));
                    assert(self.v@ =~= sold.drop_last());
                    assert forall|a: int, b: int|
                        0 <= a < b < self.v@.len() implies self.v@[a] != self.v@[b] by {
                        assert(self.v@[a] == sold[a]);
                        assert(self.v@[b] == sold[b]);
                    }
                    assert forall|y: u64| self.v@.to_set().contains(y) <==> sold.to_set().remove(
                        x,
                    ).contains(y) by {
                        if self.v@.contains(y) {
                            let j = choose|j: int| 0 <= j < self.v@.len() && self.v@[j] == y;
                            assert(sold[j] == y);
                            assert(sold.contains(y));
                            if y == x {
                                assert(false);
                            }
                        }
                        if sold.contains(y) && y != x {
                            let j = choose|j: int| 0 <= j < sold.len() && sold[j] == y;
                            assert(j < sold.len() - 1);
                            assert(self.v@[j] == y);
                            assert(self.v@.contains(y));
                        }
                    }
                    assert(self.v@.to_set() =~= sold.to_set().remove(x));
                },
                None => {
                    assert(sold.len() == 0);
                    if exists|y: u64| sold.to_set().contains(y) {
                        let y = choose|y: u64| sold.to_set().contains(y);
                        assert(sold.contains(y));
                        assert(false);
                    }
                    assert(sold.to_set() =~= Set::<u64>::empty());
                },
            }
        }
        r
    }

    pub fn len(&self) -> (r: usize)
        ensures
            r == self.seq().len(),
    {
        self.v.len()
    }

    /// The members in vector order, for iteration.
    pub fn idx(&self, i: usize) -> (r: u64)
        requires
            i < self.seq().len(),
        ensures
            r == self.seq()[i as int],
            self@.contains(r),
    {
        proof {
            assert(self.v@.contains(self.v@[i as int]));
        }
        self.v[i]
    }
}

} // verus!
