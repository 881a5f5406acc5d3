//! The workload interface: anything that hands out transactions to run.

use vstd::prelude::*;

use crate::unif::{U64Gen, U64Txn};

verus! {

/// A core workload: a source of transactions.
pub trait CoreWL {
    type Txn;

    /// The next transaction of the workload.
    fn get(&mut self) -> Self::Txn;
}

impl CoreWL for U64Gen {
    type Txn = U64Txn;

    fn get(&mut self) -> U64Txn {
        self.get()
    }
}

} // verus!
