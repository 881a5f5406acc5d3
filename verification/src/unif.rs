//! A replayable integer read-write workload driven by a xorshift-style
//! pseudo-random walk.  Every step is mirrored by a spec function, so a
//! transaction replayed from the same seed yields the same event sequence.

use vstd::prelude::*;

use crate::constraint::{Filter, Mapper, MaybeIndexer, TxCkpt};
use crate::tx::{End, RWClosure, Tx};

verus! {

/// A keyed integer value: the key and the payload.
#[derive(Debug, Clone, Copy, PartialEq, Eq, Structural)]
pub struct U64Tup(pub u64, pub u64);

/// A single-pair mapping batch.
#[derive(Debug, Clone, Copy)]
pub struct U64Map(pub Option<(u64, Option<U64Tup>)>);

/// A single-key proposition.
#[derive(Debug, Clone, Copy, PartialEq, Eq, Structural)]
pub struct U64Prp(pub u64);

impl U64Tup {
    /// The key this value lives under.
    pub fn id(&self) -> (r: u64)
        ensures
            r == self.0,
    {
        self.0
    }
}

impl Mapper<u64, U64Tup> for U64Map {
    open spec fn s_pairs(&self) -> Seq<(u64, Option<U64Tup>)> {
        match self.0 {
            Some(p) => seq![p],
            None => Seq::empty(),
        }
    }

    open spec fn s_from(v: Seq<(u64, Option<U64Tup>)>) -> Self {
        if v.len() == 0 {
            U64Map(None)
        } else {
            U64Map(Some(v[0]))
        }
    }

    fn into_mapping(&self) -> (r: Vec<(u64, Option<U64Tup>)>) {
        match self.0 {
            Some(p) => {
                let mut v: Vec<(u64, Option<U64Tup>)> = Vec::new();
                v.push(p);
                proof {
                    assert(v@ =~= self.s_pairs());
                }
                v
            },
            None => {
                let v: Vec<(u64, Option<U64Tup>)> = Vec::new();
                proof {
                    assert(v@ =~= self.s_pairs());
                }
                v
            },
        }
    }

    fn from_mapping(v: Vec<(u64, Option<U64Tup>)>) -> (r: Self) {
        if v.len() == 0 {
            U64Map(None)
        } else {
            U64Map(Some(v[0]))
        }
    }
}

impl MaybeIndexer<u64> for U64Prp {
    open spec fn s_keys(&self) -> Option<Seq<u64>> {
        Some(seq![self.0])
    }

    open spec fn s_from_keys(v: Seq<u64>) -> Self {
        U64Prp(v[0])
    }

    fn tryc_indexer(&self) -> (r: Option<Vec<u64>>) {
        let mut v: Vec<u64> = Vec::new();
        v.push(self.0);
        proof {
            assert(v@ =~= seq![self.0]);
        }
        Some(v)
    }

    fn from_indexer(v: Vec<u64>) -> (r: Self) {
        U64Prp(v[0])
    }
}

impl Filter<U64Tup> for U64Prp {
    open spec fn s_sel(&self, v: &U64Tup) -> bool {
        v.0 == self.0
    }

    fn into_filter(&self, v: &U64Tup) -> (r: bool) {
        v.0 == self.0
    }
}

/// Left rotation of a 32-bit word.
pub open spec fn s_rotl(x: u32, n: u32) -> u32
    recommends
        0 < n < 32,
{
    (x << n) | (x >> (32 - n))
}

fn rotl(x: u32, n: u32) -> (r: u32)
    requires
        0 < n < 32,
    ensures
        r == s_rotl(x, n),
{
    (x << n) | (x >> (32 - n))
}

/// One step of the pseudo-random walk.
pub open spec fn s_num(seed: u64) -> u64 {
    let s0 = (seed >> 32) as u32;
    let s1 = (seed & 0xffffffff) as u32;
    let s1a = s1 ^ s0;
    let s0a = (s_rotl(s0, 26) ^ s1a) ^ (s1a << 9);
    let s1b = s_rotl(s1a, 13);
    ((s0a as u64) << 32) | (s1b as u64)
}

/// The walk iterated `n` times.
pub open spec fn s_num_n(seed: u64, n: nat) -> u64
    decreases n,
{
    if n == 0 {
        seed
    } else {
        s_num_n(s_num(seed), (n - 1) as nat)
    }
}

fn num_step(seed: u64) -> (r: u64)
    ensures
        r == s_num(seed),
{
    let s0 = (seed >> 32) as u32;
    let mut s1 = (seed & 0xffffffff) as u32;
    s1 = s1 ^ s0;
    let s0a = (rotl(s0, 26) ^ s1) ^ (s1 << 9);
    let s1b = rotl(s1, 13);
    ((s0a as u64) << 32) | (s1b as u64)
}

/// A transaction that reads and writes integer values.
#[derive(Debug, Clone, Copy, PartialEq, Eq, Hash)]
pub struct U64Txn {
    /// The transaction id.
    pub id: u64,
    /// The current seed of the randomized walk.
    pub seed: u64,
    /// Accumulated proportions of read, write, abort and commit steps.
    pub rwac: (u64, u64, u64, u64),
    /// The upper bound of generated values.
    pub vrng: u64,
    /// The mask applied to generated values.
    pub vmsk: u64,
    /// The offset applied to generated values.
    pub voff: u64,
    /// How many reads this transaction has performed.
    pub rcnt: u64,
    /// How many writes this transaction has performed.
    pub wcnt: u64,
}

impl U64Txn {
    /// The parameters under which every step of the walk is meaningful.
    pub open spec fn param_wf(&self) -> bool {
        &&& self.rwac.0 <= self.rwac.1 <= self.rwac.2 <= self.rwac.3
        &&& 0 < self.rwac.3 <= u64::MAX / 2
        &&& self.vrng > 0
    }

    /// A value drawn inside the range, after one walk step from `seed`.
    pub open spec fn s_val_at(&self, seed: u64) -> (u64, u64)
        recommends
            self.vrng > 0,
    {
        let s2 = s_num(seed);
        (s2, ((s2 & self.vmsk) | self.voff) % self.vrng)
    }

    /// Draw a value inside the range and walk the seed.
    fn val(&mut self) -> (r: u64)
        requires
            old(self).vrng > 0,
        ensures
            *final(self) == (U64Txn { seed: s_num(old(self).seed), ..*old(self) }),
            r == old(self).s_val_at(old(self).seed).1,
    {
        let s2 = num_step(self.seed);
        self.seed = s2;
        ((s2 & self.vmsk) | self.voff) % self.vrng
    }

    /// Walk the seed one step.
    fn num(&mut self) -> (r: u64)
        ensures
            *final(self) == (U64Txn { seed: s_num(old(self).seed), ..*old(self) }),
            r == s_num(old(self).seed),
    {
        let s2 = num_step(self.seed);
        self.seed = s2;
        s2
    }
}

impl TxCkpt for U64Txn {
    type Ckpt = u64;

    open spec fn with_ckpt(self, c: u64) -> Self {
        U64Txn { seed: c, ..self }
    }

    fn make(&mut self) -> (c: u64) {
        self.seed
    }

    fn goto(&mut self, c: u64) {
        self.seed = c;
    }
}

impl Tx<U64Tup> for U64Txn {
    type Prp = U64Prp;

    type Mapping = U64Map;

    type Out = u64;

    open spec fn sid(&self) -> u64 {
        self.id
    }

    open spec fn s_go(self) -> RWClosure<Self, U64Prp, U64Map> {
        if !self.param_wf() {
            RWClosure::Op(self)
        } else {
            let n1 = s_num(self.seed);
            let rw = n1 % ((2 * self.rwac.3) as u64);
            if rw < self.rwac.0 {
                let k = self.s_val_at(n1).1;
                RWClosure::Rd(self, U64Prp(k))
            } else if rw < self.rwac.1 {
                let (s2, k) = self.s_val_at(n1);
                let n3 = s_num(s2);
                let v = if n3 & 1 == 0 {
                    None
                } else {
                    Some(U64Tup(k, self.s_val_at(n3).1))
                };
                RWClosure::Wr(self, U64Map(Some((k, v))))
            } else if rw < self.rwac.2 {
                RWClosure::Cl(self, End::Abort)
            } else if rw < self.rwac.3 {
                RWClosure::Cl(self, End::Ready)
            } else {
                RWClosure::Op(self)
            }
        }
    }

    open spec fn s_op(self) -> Self {
        U64Txn { seed: s_num_n(self.seed, 256), ..self }
    }

    open spec fn s_rd(self, m: U64Map) -> Self {
        let rc = if self.rcnt == u64::MAX {
            self.rcnt
        } else {
            (self.rcnt + 1) as u64
        };
        match m.0 {
            Some((k, Some(tup))) => {
                let s1 = s_num(self.seed);
                let mixed = (((tup.1 as int) + (s1 as int)) % 0x10000000000000000) as u64;
                U64Txn { seed: mixed, rcnt: rc, ..self }
            },
            _ => U64Txn { seed: s_num_n(self.seed, 4), rcnt: rc, ..self },
        }
    }

    open spec fn s_wr(self) -> Self {
        let wc = if self.wcnt == u64::MAX {
            self.wcnt
        } else {
            (self.wcnt + 1) as u64
        };
        U64Txn { seed: s_num_n(self.seed, 5), wcnt: wc, ..self }
    }

    open spec fn s_cl(self) -> Option<u64> {
        if self.rwac.3 == 0 {
            None
        } else {
            let rw = s_num(self.seed) % self.rwac.3;
            if rw < self.rwac.1 {
                None
            } else if rw < self.rwac.2 {
                None
            } else {
                Some(self.seed)
            }
        }
    }

    fn id(&self) -> (r: u64) {
        self.id
    }

    fn go(self) -> (r: RWClosure<Self, U64Prp, U64Map>) {
        if !(self.rwac.0 <= self.rwac.1 && self.rwac.1 <= self.rwac.2 && self.rwac.2 <= self.rwac.3
            && 0 < self.rwac.3 && self.rwac.3 <= u64::MAX / 2 && self.vrng > 0) {
            return RWClosure::Op(self);
        }
        let mut t = self;
        let seed0 = t.seed;
        let n1 = t.num();
        let rw = n1 % (2 * t.rwac.3);
        if rw < t.rwac.0 {
            let k = t.val();
            t.seed = seed0;
            RWClosure::Rd(t, U64Prp(k))
        } else if rw < t.rwac.1 {
            let k = t.val();
            let v = if t.num() & 1 == 0 {
                None
            } else {
                Some(U64Tup(k, t.val()))
            };
            t.seed = seed0;
            RWClosure::Wr(t, U64Map(Some((k, v))))
        } else if rw < t.rwac.2 {
            t.seed = seed0;
            RWClosure::Cl(t, End::Abort)
        } else if rw < t.rwac.3 {
            t.seed = seed0;
            RWClosure::Cl(t, End::Ready)
        } else {
            t.seed = seed0;
            RWClosure::Op(t)
        }
    }

    fn op(self) -> (r: Self) {
        let mut t = self;
        let ghost seed0 = t.seed;
        let mut i: u64 = 0;
        while i < 256
            invariant
                i <= 256,
                t == (U64Txn { seed: s_num_n(seed0, i as nat), ..self }),
            decreases 256 - i,
        {
            proof {
                lemma_num_n_step(seed0, i as nat);
            }
            t.num();
            i = i + 1;
        }
        t
    }

    fn rd(self, m: U64Map) -> (r: Self) {
        let mut t = self;
        if t.rcnt < u64::MAX {
            t.rcnt = t.rcnt + 1;
        }
        match m.0 {
            Some((_, Some(tup))) => {
                let s1 = t.num();
                let sum: u128 = (tup.1 as u128) + (s1 as u128);
                proof {
                    assert(sum & 0xffffffffffffffff == sum % 0x10000000000000000) by (bit_vector);
                }
                let mixed = (sum & 0xffffffffffffffff) as u64;
                t.seed = mixed;
                t
            },
            _ => {
                let ghost seed0 = t.seed;
                let mut i: u64 = 0;
                while i < 4
                    invariant
                        i <= 4,
                        t.seed == s_num_n(seed0, i as nat),
                        t == (U64Txn {
                            seed: t.seed,
                            rcnt: (if self.rcnt == u64::MAX {
                                self.rcnt
                            } else {
                                (self.rcnt + 1) as u64
                            }),
                            ..self
                        }),
                    decreases 4 - i,
                {
                    proof {
                        lemma_num_n_step(seed0, i as nat);
                    }
                    t.num();
                    i = i + 1;
                }
                t
            },
        }
    }

    fn wr(self) -> (r: Self) {
        let mut t = self;
        if t.wcnt < u64::MAX {
            t.wcnt = t.wcnt + 1;
        }
        let ghost seed0 = t.seed;
        let mut i: u64 = 0;
        while i < 5
            invariant
                i <= 5,
                t.seed == s_num_n(seed0, i as nat),
                t == (U64Txn {
                    seed: t.seed,
                    wcnt: (if self.wcnt == u64::MAX {
                        self.wcnt
                    } else {
                        (self.wcnt + 1) as u64
                    }),
                    ..self
                }),
            decreases 5 - i,
        {
            proof {
                lemma_num_n_step(seed0, i as nat);
            }
            t.num();
            i = i + 1;
        }
        t
    }

    fn cl(self) -> (r: Option<u64>) {
        if self.rwac.3 == 0 {
            return None;
        }
        let seed = self.seed;
        let n = num_step(seed);
        let rw = n % self.rwac.3;
        if rw < self.rwac.1 {
            None
        } else if rw < self.rwac.2 {
            None
        } else {
            Some(seed)
        }
    }
}

/// Unfolding the iterated walk one step at the end.
proof fn lemma_num_n_step(seed: u64, n: nat)
    ensures
        s_num_n(seed, n + 1) == s_num(s_num_n(seed, n)),
    decreases n,
{
    if n == 0 {
        assert(s_num_n(seed, 1) == s_num_n(s_num(seed), 0));
        assert(s_num_n(s_num(seed), 0) == s_num(seed));
    } else {
        lemma_num_n_step(s_num(seed), (n - 1) as nat);
        assert(s_num_n(seed, n + 1) == s_num_n(s_num(seed), n));
        assert(s_num_n(seed, n) == s_num_n(s_num(seed), (n - 1) as nat));
    }
}

/// A replayable generator of integer transactions.
#[derive(Debug, Clone, Copy, PartialEq, Eq, Hash)]
pub struct U64Gen {
    /// Seed of the generator's own walk.
    pub seed: u64,
    /// Accumulated proportions of read, write, abort and commit.
    pub rwac: (u64, u64, u64, u64),
    /// The upper bound of generated values.
    pub vrng: u64,
    /// Auto-incrementing counter for id generation.
    pub incr: u64,
}

/// The generator state and transaction produced by one `get`.
pub open spec fn s_gen_get(g: U64Gen) -> (U64Gen, U64Txn) {
    let vmsk = s_num(g.seed);
    let seed1 = s_num(vmsk);
    let voffbase = s_num(seed1);
    let t = U64Txn {
        id: g.incr,
        seed: seed1,
        rwac: g.rwac,
        vrng: g.vrng,
        vmsk: vmsk,
        voff: voffbase & !vmsk,
        rcnt: 0,
        wcnt: 0,
    };
    let g2 = U64Gen {
        seed: voffbase,
        incr: if g.incr == u64::MAX {
            g.incr
        } else {
            (g.incr + 1) as u64
        },
        ..g
    };
    (g2, t)
}

impl U64Gen {
    /// The accumulated proportions and id counter of this generator.
    pub open spec fn model(&self) -> (u64, (u64, u64, u64, u64), u64, u64) {
        (self.seed, self.rwac, self.vrng, self.incr)
    }

    /// A new generator; the proportions are accumulated so that one draw of
    /// the walk selects among read, write, abort and commit.
    pub fn new(seed: u64, rwac: (u64, u64, u64, u64), vrng: u64) -> (r: Self)
        requires
            rwac.0 + rwac.1 + rwac.2 + rwac.3 <= u64::MAX,
        ensures
            r.model() == (
                seed,
                (
                    rwac.0,
                    (rwac.0 + rwac.1) as u64,
                    (rwac.0 + rwac.1 + rwac.2) as u64,
                    (rwac.0 + rwac.1 + rwac.2 + rwac.3) as u64,
                ),
                vrng,
                0u64,
            ),
    {
        let acc = (rwac.0, rwac.0 + rwac.1, rwac.0 + rwac.1 + rwac.2, rwac.0 + rwac.1 + rwac.2
            + rwac.3);
        U64Gen { seed, rwac: acc, vrng, incr: 0 }
    }

    /// Produce the next transaction of the workload.
    pub fn get(&mut self) -> (r: U64Txn)
        ensures
            (*final(self), r) == s_gen_get(*old(self)),
    {
        let id = self.incr;
        if self.incr < u64::MAX {
            self.incr = self.incr + 1;
        }
        let vmsk = self.num();
        let seed1 = self.num();
        let voffbase = self.num();
        U64Txn {
            id,
            seed: seed1,
            rwac: self.rwac,
            vrng: self.vrng,
            voff: voffbase & !vmsk,
            vmsk,
            rcnt: 0,
            wcnt: 0,
        }
    }

    /// Walk the generator seed one step.
    pub fn num(&mut self) -> (r: u64)
        ensures
            *final(self) == (U64Gen { seed: s_num(old(self).seed), ..*old(self) }),
            r == s_num(old(self).seed),
    {
        let s2 = num_step(self.seed);
        self.seed = s2;
        s2
    }
}

} // verus!
