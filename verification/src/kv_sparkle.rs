//! The primary speculative deterministic protocol: the engine with its
//! auxiliary state stored inline on the wrapped transaction.

use vstd::prelude::*;

pub use crate::kv_core::KVSparkleErr;

use crate::kv_core::KVCore;
use crate::twrap::{fresh_aux, Aux};
use crate::tx::Tx;
use crate::wrap::Wrap;

verus! {

/// The speculative protocol over inline auxiliary state.
pub type KVSparkle<T, V> = KVCore<T, V, Aux<V>>;

/// A transaction wrapped with inline auxiliary state.
pub type KVSparkleTx<V, T> = Wrap<T, Aux<V>>;

impl<V: Copy, T: Tx<V>> Wrap<T, Aux<V>> {
    /// Wrap a fresh transaction for the speculative protocol.
    pub fn new(tx: T) -> (r: KVSparkleTx<V, T>)
        ensures
            r.tx == tx,
            fresh_aux(r.ax),
    {
        Wrap { tx, ax: Aux::new() }
    }
}

} // verus!
