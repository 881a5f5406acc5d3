//! The resumable-transaction contract and the service-facing interface.

use vstd::prelude::*;

verus! {

/// How a transaction wishes to end.
#[derive(Debug, Clone, Copy, PartialEq, Eq, Structural)]
pub enum End {
    /// Ready to commit.
    Ready,
    /// Ready to abort.
    Abort,
}

/// A state that sticks waiting for an external event or information.
#[derive(Debug)]
pub enum RWClosure<T, P, M> {
    /// Perform some internal computation.
    Op(T),
    /// Stuck reading external data selected by a proposition.
    Rd(T, P),
    /// Stuck writing an external key-to-value mapping.
    Wr(T, M),
    /// Close the current transaction.
    Cl(T, End),
}

/// A resumable computation with a totally ordered id.
///
/// Every operation is mirrored by a spec function, so that a transaction is
/// a mathematical function of its state: driving the same transaction value
/// always produces the same event and successor.
pub trait Tx<V>: Sized {
    /// The proposition type of its read requests.
    type Prp;

    /// The key-to-optional-value batch type of its reads and writes.
    type Mapping;

    /// The output released when it closes.
    type Out;

    /// The ordering key: lower ids commit earlier.
    spec fn sid(&self) -> u64;

    /// What `go` yields.
    spec fn s_go(self) -> RWClosure<Self, Self::Prp, Self::Mapping>;

    /// What `op` returns.
    spec fn s_op(self) -> Self;

    /// What `rd` returns.
    spec fn s_rd(self, m: Self::Mapping) -> Self;

    /// What `wr` returns.
    spec fn s_wr(self) -> Self;

    /// What `cl` releases.
    spec fn s_cl(self) -> Option<Self::Out>;

    fn id(&self) -> (r: u64)
        ensures
            r == self.sid(),
    ;

    /// Release a closure that either sticks with an external read/write
    /// request or forwards an internal transition.
    fn go(self) -> (r: RWClosure<Self, Self::Prp, Self::Mapping>)
        ensures
            r == self.s_go(),
    ;

    /// Perform an internal operation step.
    fn op(self) -> (r: Self)
        ensures
            r == self.s_op(),
    ;

    /// Proceed a read-stuck transaction by plugging in the read mapping.
    fn rd(self, m: Self::Mapping) -> (r: Self)
        ensures
            r == self.s_rd(m),
    ;

    /// Proceed a write-stuck transaction.
    fn wr(self) -> (r: Self)
        ensures
            r == self.s_wr(),
    ;

    /// Close the transaction and release its output.
    fn cl(self) -> (r: Option<Self::Out>)
        ensures
            r == self.s_cl(),
    ;
}

/// A transaction processing service: a running database instance or client.
pub trait TxService<T: Tx<V>, V> {
    /// The error type of this service.
    type Err;

    /// The internal well-formedness every service state keeps.
    spec fn inv(&self) -> bool;

    /// Start the transaction processing unit.
    fn start(&mut self) -> (r: Result<(), Self::Err>)
        requires
            old(self).inv(),
        ensures
            final(self).inv(),
    ;

    /// Close the service, reporting any worker failure.
    fn close(&mut self) -> (r: Result<(), Self::Err>)
        requires
            old(self).inv(),
        ensures
            final(self).inv(),
    ;

    /// Submit a transaction to the running instance.
    fn put(&mut self, t: T) -> (r: Result<(), Self::Err>)
        requires
            old(self).inv(),
        ensures
            final(self).inv(),
    ;

    /// Retrieve the output of transaction `i`, or an error while it is
    /// still pending.
    fn get(&mut self, i: u64) -> (r: Result<Option<T::Out>, Self::Err>)
        requires
            old(self).inv(),
        ensures
            final(self).inv(),
    ;
}

} // verus!
