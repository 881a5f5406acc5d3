//! The reference in-memory durability backend: a plain keyed store with a
//! discard-all-writes mode, used as the store of record in tests and
//! benchmarks.

use vstd::prelude::*;

use core::marker::PhantomData;

use crate::constraint::{Filter, Mapper, MaybeIndexer};
use crate::rw::RWDurable;
use crate::tx::{End, Tx};
use crate::vecmap::VecMap;

verus! {

/// The in-memory store of record.
pub struct Null<V, T> {
    table: VecMap<V>,
    phant: PhantomData<T>,
    null_write: bool,
    /// Configured artificial read latency; a benchmarking knob with no
    /// bearing on the values returned.
    pub latency_rd: u64,
    /// Configured artificial write latency.
    pub latency_wr: u64,
}

/// The pairs resolved for directly named keys: each key present in the
/// store, with its value.
pub open spec fn dur_scan<V>(t: Map<u64, V>, ks: Seq<u64>) -> Seq<(u64, Option<V>)>
    decreases ks.len(),
{
    if ks.len() == 0 {
        Seq::empty()
    } else {
        let p = dur_scan(t, ks.drop_last());
        let k = ks.last();
        if t.contains_key(k) {
            p.push((k, Some(t[k])))
        } else {
            p
        }
    }
}

/// The pairs resolved by scanning the whole store with a filter.
pub open spec fn filter_scan<V, P: Filter<V>>(s: Seq<(u64, V)>, prp: P) -> Seq<(u64, Option<V>)>
    decreases s.len(),
{
    if s.len() == 0 {
        Seq::empty()
    } else {
        let p = filter_scan(s.drop_last(), prp);
        let pr = s.last();
        if prp.s_sel(&pr.1) {
            p.push((pr.0, Some(pr.1)))
        } else {
            p
        }
    }
}

/// Applying a batch: present values are stored, absent ones deleted.
pub open spec fn wr_fold<V>(t: Map<u64, V>, ps: Seq<(u64, Option<V>)>) -> Map<u64, V>
    decreases ps.len(),
{
    if ps.len() == 0 {
        t
    } else {
        let t1 = wr_fold(t, ps.drop_last());
        match ps.last().1 {
            Some(v) => t1.insert(ps.last().0, v),
            None => t1.remove(ps.last().0),
        }
    }
}

/// The same batch applied to the store's sequence, pinning the scan order
/// of later filtered reads as well.
pub open spec fn wr_fold_seq<V>(s: Seq<(u64, V)>, ps: Seq<(u64, Option<V>)>) -> Seq<(u64, V)>
    decreases ps.len(),
{
    if ps.len() == 0 {
        s
    } else {
        let s1 = wr_fold_seq(s, ps.drop_last());
        match ps.last().1 {
            Some(v) => crate::vecmap::assoc_seq_insert(s1, ps.last().0, v),
            None => crate::vecmap::assoc_seq_remove(s1, ps.last().0),
        }
    }
}

impl<V: Copy, T> Null<V, T> {
    /// The stored key-value pairs.
    pub closed spec fn store(&self) -> Map<u64, V> {
        self.table@
    }

    /// The store sequence, fixing the scan order of filtered reads.
    pub closed spec fn store_seq(&self) -> Seq<(u64, V)> {
        self.table.seq()
    }

    /// Whether writes are discarded.
    pub closed spec fn discards(&self) -> bool {
        self.null_write
    }

    pub closed spec fn wf(&self) -> bool {
        self.table.wf()
    }

    /// A new backend; the latencies are benchmarking knobs and the flag
    /// discards every write.
    pub fn new(latency_rd: u64, latency_wr: u64, fake_write: bool) -> (r: Self)
        ensures
            r.store() == Map::<u64, V>::empty(),
            r.discards() == fake_write,
            r.wf(),
    {
        Null {
            table: VecMap::new(),
            null_write: fake_write,
            latency_rd,
            latency_wr,
            phant: PhantomData,
        }
    }
}

impl<V: Copy, T> RWDurable<V, T> for Null<V, T> where
    T: Tx<V>,
    T::Prp: Filter<V> + MaybeIndexer<u64>,
    T::Mapping: Mapper<u64, V>,
 {
    type Err = ();

    type Model = (Seq<(u64, V)>, bool);

    open spec fn inv(&self) -> bool {
        self.wf()
    }

    open spec fn model(&self) -> (Seq<(u64, V)>, bool) {
        (self.store_seq(), self.discards())
    }

    open spec fn s_rd(&self, prp: T::Prp) -> Result<T::Mapping, ()> {
        if self.discards() {
            Ok(<T::Mapping as Mapper<u64, V>>::s_from(Seq::empty()))
        } else {
            match prp.s_keys() {
                Some(ks) => Ok(<T::Mapping as Mapper<u64, V>>::s_from(dur_scan(self.store(), ks))),
                None => Ok(<T::Mapping as Mapper<u64, V>>::s_from(filter_scan(
                    self.store_seq(),
                    prp,
                ))),
            }
        }
    }

    open spec fn s_wr_res(&self, txn: &T, map: T::Mapping) -> Result<(), ()> {
        Ok(())
    }

    open spec fn s_wr_model(&self, txn: &T, map: T::Mapping) -> (Seq<(u64, V)>, bool) {
        if self.discards() {
            self.model()
        } else {
            (wr_fold_seq(self.store_seq(), map.s_pairs()), self.discards())
        }
    }

    open spec fn s_open_res(&self, txn: &T) -> Result<(), ()> {
        Ok(())
    }

    open spec fn s_done_res(&self, txn: &T, end: End) -> Result<(), ()> {
        Ok(())
    }

    #[verifier::loop_isolation(false)]
    fn rd(&self, prp: T::Prp) -> (r: Result<T::Mapping, ()>) {
        let mut out: Vec<(u64, Option<V>)> = Vec::new();
        if self.null_write {
            proof {
                assert(out@ =~= Seq::<(u64, Option<V>)>::empty());
            }
            return Ok(<T::Mapping as Mapper<u64, V>>::from_mapping(out));
        }
        match prp.tryc_indexer() {
            Some(ks) => {
                let ghost kseq = ks@;
                let klen = ks.len();
                let mut i: usize = 0;
                while i < klen
                    invariant
                        i <= klen,
                        out@ == dur_scan(self.store(), kseq.take(i as int)),
                    decreases klen - i,
                {
                    proof {
                        assert(kseq.take(i as int + 1).drop_last() =~= kseq.take(i as int));
                        assert(kseq.take(i as int + 1).last() == kseq[i as int]);
                    }
                    match self.table.get(ks[i]) {
                        Some(v) => {
                            out.push((ks[i], Some(*v)));
                        },
                        None => (),
                    }
                    i = i + 1;
                }
                proof {
                    assert(kseq.take(klen as int) =~= kseq);
                }
                Ok(<T::Mapping as Mapper<u64, V>>::from_mapping(out))
            },
            None => {
                let ghost sseq = self.table.seq();
                let slen = self.table.len();
                let mut i: usize = 0;
                while i < slen
                    invariant
                        i <= slen,
                        out@ == filter_scan(sseq.take(i as int), prp),
                    decreases slen - i,
                {
                    proof {
                        assert(sseq.take(i as int + 1).drop_last() =~= sseq.take(i as int));
                        assert(sseq.take(i as int + 1).last() == sseq[i as int]);
                    }
                    let p = self.table.get_pair(i);
                    let k = p.0;
                    let v = p.1;
                    if prp.into_filter(&v) {
                        out.push((k, Some(v)));
                    }
                    i = i + 1;
                }
                proof {
                    assert(sseq.take(slen as int) =~= sseq);
                }
                Ok(<T::Mapping as Mapper<u64, V>>::from_mapping(out))
            },
        }
    }

    #[verifier::loop_isolation(false)]
    fn wr(&mut self, txn: &T, map: T::Mapping) -> (r: Result<(), ()>)
        ensures
            final(self).discards() == old(self).discards(),
            final(self).store() == (if old(self).discards() {
                old(self).store()
            } else {
                wr_fold(old(self).store(), map.s_pairs())
            }),
    {
        if self.null_write {
            return Ok(());
        }
        let ps = map.into_mapping();
        let ghost pseq = ps@;
        let ghost t0 = self.table@;
        let ghost s0 = self.table.seq();
        let plen = ps.len();
        let mut i: usize = 0;
        while i < plen
            invariant
                i <= plen,
                self.table.wf(),
                self.table@ == wr_fold(t0, pseq.take(i as int)),
                self.table.seq() == wr_fold_seq(s0, pseq.take(i as int)),
                self.null_write == old(self).null_write,
            decreases plen - i,
        {
            proof {
                assert(pseq.take(i as int + 1).drop_last() =~= pseq.take(i as int));
                assert(pseq.take(i as int + 1).last() == pseq[i as int]);
            }
            let p = ps[i];
            match p.1 {
                Some(v) => {
                    self.table.insert(p.0, v);
                },
                None => {
                    self.table.remove(p.0);
                },
            }
            i = i + 1;
        }
        proof {
            assert(pseq.take(plen as int) =~= pseq);
        }
        Ok(())
    }

    fn open(&self, txn: &T) -> (r: Result<(), ()>) {
        Ok(())
    }

    fn done(&self, txn: &T, end: End) -> (r: Result<(), ()>) {
        Ok(())
    }
}

} // verus!
