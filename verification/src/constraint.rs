//! Capability constraints on transaction ids, propositions and mappings.

use vstd::prelude::*;

verus! {

/// Natural-number-like transaction ids: a zero and a successor.
pub trait Nat: Sized {
    /// The mathematical zero of this id type.
    spec fn s_zero() -> Self;

    /// Whether the successor of `self` is representable.
    spec fn can_succ(&self) -> bool;

    /// The mathematical successor of `self`.
    spec fn s_succ(&self) -> Self;

    fn zero() -> (r: Self)
        ensures
            r == Self::s_zero(),
    ;

    fn succ(&self) -> (r: Self)
        requires
            self.can_succ(),
        ensures
            r == self.s_succ(),
    ;
}

impl Nat for u64 {
    open spec fn s_zero() -> u64 {
        0
    }

    open spec fn can_succ(&self) -> bool {
        *self < u64::MAX
    }

    open spec fn s_succ(&self) -> u64 {
        (*self + 1) as u64
    }

    fn zero() -> (r: u64) {
        0
    }

    fn succ(&self) -> (r: u64) {
        *self + 1
    }
}

/// Checkpointing on a transaction: capture a resumable snapshot of the
/// restart-from-the-beginning state, and jump back to it.
pub trait TxCkpt: Sized {
    type Ckpt: Copy;

    /// The transaction rewound to checkpoint `c`.
    spec fn with_ckpt(self, c: Self::Ckpt) -> Self;

    /// Capture a checkpoint of the current state; restoring it at once is a
    /// no-op.
    fn make(&mut self) -> (c: Self::Ckpt)
        ensures
            *final(self) == *old(self),
            old(self).with_ckpt(c) == *old(self),
    ;

    /// Jump back to checkpoint `c`.
    fn goto(&mut self, c: Self::Ckpt)
        ensures
            *final(self) == old(self).with_ckpt(c),
    ;
}

/// The loosest constraint on a set proposition: it may test one value.
pub trait MaybeFilter<V> {
    /// Test one value, where filtering is supported at all.
    fn tryc_filter(&self, v: &V) -> Option<bool> {
        None
    }
}

/// A proposition that can test any value.
pub trait Filter<V> {
    /// Whether the proposition selects `v`.
    spec fn s_sel(&self, v: &V) -> bool;

    /// Test one value.
    fn into_filter(&self, v: &V) -> (r: bool)
        ensures
            r == self.s_sel(v),
    ;
}

impl<V, T: Filter<V>> MaybeFilter<V> for T {
    fn tryc_filter(&self, v: &V) -> Option<bool> {
        Some(self.into_filter(v))
    }
}

/// A proposition that may name the keys it selects directly.
pub trait MaybeIndexer<I>: Sized {
    /// The keys selected, where direct indexing is supported.
    spec fn s_keys(&self) -> Option<Seq<I>>;

    /// The proposition naming exactly the given keys.
    spec fn s_from_keys(v: Seq<I>) -> Self;

    fn tryc_indexer(&self) -> (r: Option<Vec<I>>)
        ensures
            match r {
                Some(v) => self.s_keys() == Some(v@),
                None => self.s_keys() is None,
            },
    ;

    fn from_indexer(v: Vec<I>) -> (r: Self)
        requires
            v@.len() > 0,
        ensures
            r == Self::s_from_keys(v@),
    ;
}

/// A key-to-optional-value batch; an absent value means deletion.
pub trait Mapper<I, V>: Sized {
    /// The pairs this batch carries.
    spec fn s_pairs(&self) -> Seq<(I, Option<V>)>;

    /// The batch built from the given pairs.
    spec fn s_from(v: Seq<(I, Option<V>)>) -> Self;

    /// The batch as a vector of pairs.
    fn into_mapping(&self) -> (r: Vec<(I, Option<V>)>)
        ensures
            r@ == self.s_pairs(),
    ;

    /// Build a batch from a vector of pairs.
    fn from_mapping(v: Vec<(I, Option<V>)>) -> (r: Self)
        ensures
            r == Self::s_from(v@),
    ;
}

/// A batch that may hand its pairs out.
pub trait MaybeMapper<I, V>: Sized {
    /// The pairs, where enumeration is supported at all.
    fn tryc_mapping(&mut self) -> Option<Vec<(I, Option<V>)>> {
        None
    }
}

impl<I, V, T: Mapper<I, V>> MaybeMapper<I, V> for T {
    fn tryc_mapping(&mut self) -> Option<Vec<(I, Option<V>)>> {
        Some(self.into_mapping())
    }
}

/// The ability to enumerate all sets in a class of non-overlapping sets.
pub trait LapLock {
    type Set;
    type Tok;
    type Err;

    /// Freeze all overlapping sets and get a token for this lock;
    /// `Ok(None)` means blocked.
    fn lock(&mut self, set: &Self::Set) -> Result<Option<(Vec<Self::Set>, Self::Tok)>, Self::Err>;

    /// Free the frozen sets with a given token.
    fn free(&mut self, tok: Self::Tok) -> Result<(), Self::Err>;

    /// Insert a set; it must be the one that generated the lock token.
    fn insert(&mut self, set: Self::Set, tok: &Self::Tok) -> Result<(), Self::Err>;

    /// Remove a set returned along with the token.
    fn remove(&mut self, set: &Self::Set, tok: &Self::Tok) -> Result<Self::Set, Self::Err>;
}

} // verus!
