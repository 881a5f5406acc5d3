//! A wrapper packing protocol-private auxiliary state onto a transaction.

use vstd::prelude::*;

use crate::tx::{RWClosure, Tx};

verus! {

/// A transaction together with auxiliary information.
#[derive(Debug, Clone)]
pub struct Wrap<T, A> {
    /// The transaction itself.
    pub tx: T,
    /// The auxiliary information.
    pub ax: A,
}

impl<T: Tx<V>, V, A> Tx<V> for Wrap<T, A> {
    type Prp = T::Prp;

    type Mapping = T::Mapping;

    type Out = T::Out;

    open spec fn sid(&self) -> u64 {
        self.tx.sid()
    }

    open spec fn s_go(self) -> RWClosure<Self, T::Prp, T::Mapping> {
        match self.tx.s_go() {
            RWClosure::Op(tx) => RWClosure::Op(Wrap { tx, ax: self.ax }),
            RWClosure::Rd(tx, prp) => RWClosure::Rd(Wrap { tx, ax: self.ax }, prp),
            RWClosure::Wr(tx, m) => RWClosure::Wr(Wrap { tx, ax: self.ax }, m),
            RWClosure::Cl(tx, end) => RWClosure::Cl(Wrap { tx, ax: self.ax }, end),
        }
    }

    open spec fn s_op(self) -> Self {
        Wrap { tx: self.tx.s_op(), ax: self.ax }
    }

    open spec fn s_rd(self, m: T::Mapping) -> Self {
        Wrap { tx: self.tx.s_rd(m), ax: self.ax }
    }

    open spec fn s_wr(self) -> Self {
        Wrap { tx: self.tx.s_wr(), ax: self.ax }
    }

    open spec fn s_cl(self) -> Option<T::Out> {
        self.tx.s_cl()
    }

    fn id(&self) -> (r: u64) {
        self.tx.id()
    }

    fn go(self) -> (r: RWClosure<Self, T::Prp, T::Mapping>) {
        let Wrap { tx, ax } = self;
        match tx.go() {
            RWClosure::Rd(tx, prp) => RWClosure::Rd(Wrap { tx, ax }, prp),
            RWClosure::Wr(tx, m) => RWClosure::Wr(Wrap { tx, ax }, m),
            RWClosure::Cl(tx, end) => RWClosure::Cl(Wrap { tx, ax }, end),
            RWClosure::Op(tx) => RWClosure::Op(Wrap { tx, ax }),
        }
    }

    fn op(self) -> (r: Self) {
        let Wrap { tx, ax } = self;
        Wrap { tx: tx.op(), ax }
    }

    fn rd(self, m: T::Mapping) -> (r: Self) {
        let Wrap { tx, ax } = self;
        Wrap { tx: tx.rd(m), ax }
    }

    fn wr(self) -> (r: Self) {
        let Wrap { tx, ax } = self;
        Wrap { tx: tx.wr(), ax }
    }

    fn cl(self) -> (r: Option<T::Out>) {
        self.tx.cl()
    }
}

} // verus!
