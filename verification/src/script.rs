//! A scripted transaction: a fixed program of reads, writes and a close,
//! replayed deterministically.  It drives the protocols through exactly
//! chosen schedules, which the randomized integer workload cannot.

use vstd::prelude::*;

use crate::constraint::TxCkpt;
use crate::tx::{End, RWClosure, Tx};
use crate::unif::{U64Map, U64Prp, U64Tup};

verus! {

/// One step of a scripted transaction.
#[derive(Debug, Clone, Copy, PartialEq, Eq)]
pub enum ScriptStep {
    /// Read the given key.
    Read(u64),
    /// Write the given key; an absent payload deletes it.
    Write(u64, Option<u64>),
    /// An internal computation step.
    Work,
    /// Close, ready to commit or aborting.
    Finish(bool),
}

/// A transaction that follows a fixed script.  Its output is the payload
/// of the last value it observed through a read.
#[derive(Debug, Clone, PartialEq, Eq)]
pub struct ScriptTxn {
    pub id: u64,
    pub pc: usize,
    pub steps: Vec<ScriptStep>,
    pub last_read: u64,
}

impl ScriptTxn {
    /// A scripted transaction at the start of its program.
    pub fn new(id: u64, steps: Vec<ScriptStep>) -> (r: Self)
        ensures
            r == (ScriptTxn { id, pc: 0, steps, last_read: 0 }),
    {
        ScriptTxn { id, pc: 0, steps, last_read: 0 }
    }

    /// The program counter advanced by one, saturating.
    pub open spec fn s_step(self) -> Self {
        if self.pc == usize::MAX {
            self
        } else {
            ScriptTxn { pc: (self.pc + 1) as usize, ..self }
        }
    }

    fn advance(&mut self)
        ensures
            *final(self) == old(self).s_step(),
    {
        if self.pc < usize::MAX {
            self.pc = self.pc + 1;
        }
    }
}

impl TxCkpt for ScriptTxn {
    type Ckpt = usize;

    open spec fn with_ckpt(self, c: usize) -> Self {
        ScriptTxn { pc: c, ..self }
    }

    fn make(&mut self) -> (c: usize) {
        self.pc
    }

    fn goto(&mut self, c: usize) {
        self.pc = c;
    }
}

impl Tx<U64Tup> for ScriptTxn {
    type Prp = U64Prp;

    type Mapping = U64Map;

    type Out = u64;

    open spec fn sid(&self) -> u64 {
        self.id
    }

    open spec fn s_go(self) -> RWClosure<Self, U64Prp, U64Map> {
        if self.pc >= self.steps@.len() {
            RWClosure::Cl(self, End::Ready)
        } else {
            match self.steps@[self.pc as int] {
                ScriptStep::Read(k) => RWClosure::Rd(self, U64Prp(k)),
                ScriptStep::Write(k, v) => RWClosure::Wr(
                    self,
                    U64Map(
                        Some(
                            (
                                k,
                                match v {
                                    Some(x) => Some(U64Tup(k, x)),
                                    None => None,
                                },
                            ),
                        ),
                    ),
                ),
                ScriptStep::Work => RWClosure::Op(self),
                ScriptStep::Finish(ready) => RWClosure::Cl(
                    self,
                    if ready {
                        End::Ready
                    } else {
                        End::Abort
                    },
                ),
            }
        }
    }

    open spec fn s_op(self) -> Self {
        self.s_step()
    }

    open spec fn s_rd(self, m: U64Map) -> Self {
        let t2 = match m.0 {
            Some((k, Some(tup))) => ScriptTxn { last_read: tup.1, ..self },
            _ => self,
        };
        t2.s_step()
    }

    open spec fn s_wr(self) -> Self {
        self.s_step()
    }

    open spec fn s_cl(self) -> Option<u64> {
        if self.pc >= self.steps@.len() {
            Some(self.last_read)
        } else {
            match self.steps@[self.pc as int] {
                ScriptStep::Finish(ready) => if ready {
                    Some(self.last_read)
                } else {
                    None
                },
                _ => None,
            }
        }
    }

    fn id(&self) -> (r: u64) {
        self.id
    }

    fn go(self) -> (r: RWClosure<Self, U64Prp, U64Map>) {
        if self.pc >= self.steps.len() {
            return RWClosure::Cl(self, End::Ready);
        }
        let step = self.steps[self.pc];
        match step {
            ScriptStep::Read(k) => RWClosure::Rd(self, U64Prp(k)),
            ScriptStep::Write(k, v) => {
                let payload = match v {
                    Some(x) => Some(U64Tup(k, x)),
                    None => None,
                };
                RWClosure::Wr(self, U64Map(Some((k, payload))))
            },
            ScriptStep::Work => RWClosure::Op(self),
            ScriptStep::Finish(ready) => {
                if ready {
                    RWClosure::Cl(self, End::Ready)
                } else {
                    RWClosure::Cl(self, End::Abort)
                }
            },
        }
    }

    fn op(self) -> (r: Self) {
        let mut t = self;
        t.advance();
        t
    }

    fn rd(self, m: U64Map) -> (r: Self) {
        let mut t = self;
        match m.0 {
            Some((_, Some(tup))) => {
                t.last_read = tup.1;
            },
            _ => (),
        }
        t.advance();
        t
    }

    fn wr(self) -> (r: Self) {
        let mut t = self;
        t.advance();
        t
    }

    fn cl(self) -> (r: Option<u64>) {
        if self.pc >= self.steps.len() {
            return Some(self.last_read);
        }
        let step = self.steps[self.pc];
        match step {
            ScriptStep::Finish(ready) => {
                if ready {
                    Some(self.last_read)
                } else {
                    None
                }
            },
            _ => None,
        }
    }
}

} // verus!
