//! The splice variant of the speculative protocol: the same engine with
//! its auxiliary state held behind one level of indirection, the seam for
//! finer-grained rollback of reads against writes.

use vstd::prelude::*;

use crate::kv_core::{KVCore, KVSparkleErr};
use crate::twrap::{fresh_aux, Aux};
use crate::tx::Tx;
use crate::wrap::Wrap;

verus! {

/// The error of the splice protocol; the engine is shared.
pub type KVSpliceErr<E> = KVSparkleErr<E>;

/// The speculative protocol over boxed auxiliary state.
pub type KVSplice<T, V> = KVCore<T, V, Box<Aux<V>>>;

/// A transaction wrapped with boxed auxiliary state.
pub type KVSpliceTx<V, T> = Wrap<T, Box<Aux<V>>>;

impl<V: Copy, T: Tx<V>> Wrap<T, Box<Aux<V>>> {
    /// Wrap a fresh transaction for the splice protocol.
    pub fn new(tx: T) -> (r: KVSpliceTx<V, T>)
        ensures
            r.tx == tx,
            fresh_aux(*r.ax),
    {
        Wrap { tx, ax: Box::new(Aux::new()) }
    }
}

} // verus!
