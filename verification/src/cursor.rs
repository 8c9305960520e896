//! A read position in a vector of operations that can stand inside an operation.

use crate::op::{ops_view, Op, Operation};
use crate::semantics::rest_after;
use vstd::prelude::*;

verus! {

/// A position in `ops`: before operation `idx`, `used` characters into it.
pub struct Cursor<'a> {
    pub ops: &'a Vec<Operation>,
    pub idx: usize,
    pub used: usize,
    pub cur_len: usize,
}

impl<'a> Cursor<'a> {
    /// `cur_len` is the length of the operation at `idx`, and `used` lies
    /// inside it.
    pub open spec fn wf(&self) -> bool {
        &&& self.idx <= self.ops@.len()
        &&& self.idx < self.ops@.len() ==> {
            &&& self.cur_len == self.ops@[self.idx as int]@.len()
            &&& self.used <= self.cur_len
            &&& self.used == self.cur_len ==> self.used == 0
        }
        &&& self.idx == self.ops@.len() ==> self.used == 0 && self.cur_len == 0
    }

    /// The operations from the position on: what is left of the current one,
    /// then the others.
    pub open spec fn rest(&self) -> Seq<Op> {
        if self.idx >= self.ops@.len() {
            Seq::empty()
        } else {
            seq![self.ops@[self.idx as int]@.tail(self.used as nat)] + ops_view(self.ops@).skip(
                self.idx + 1,
            )
        }
    }

    /// How many operations are left, the current one included.
    pub open spec fn ops_left(&self) -> nat {
        (self.ops@.len() - self.idx) as nat
    }

    /// What is left of an operation after none of it is the operation.
    pub proof fn lemma_tail_zero(op: Op)
        ensures
            op.tail(0) == op,
    {
        match op {
            Op::Insert(s) => {
                assert(s.skip(0) =~= s);
            },
            _ => {},
        }
    }

    /// At the start of an operation the rest is the vector from there on.
    pub proof fn lemma_rest_at_start(&self)
        requires
            self.wf(),
            self.used == 0,
        ensures
            self.rest() == ops_view(self.ops@).skip(self.idx as int),
    {
        if self.idx < self.ops@.len() {
            Self::lemma_tail_zero(self.ops@[self.idx as int]@);
            assert(self.rest() =~= ops_view(self.ops@).skip(self.idx as int));
        } else {
            assert(self.rest() =~= ops_view(self.ops@).skip(self.idx as int));
        }
    }

    /// The position before the first operation.
    pub fn new(ops: &'a Vec<Operation>) -> (c: Self)
        ensures
            c.wf(),
            c.ops == ops,
            c.idx == 0,
            c.rest() == ops_view(ops@),
    {
        let cur_len = if ops.len() > 0 {
            ops[0].len()
        } else {
            0
        };
        let c = Cursor { ops, idx: 0, used: 0, cur_len };
        proof {
            c.lemma_rest_at_start();
            assert(ops_view(ops@).skip(0) =~= ops_view(ops@));
        }
        c
    }

    /// Whether nothing is left.
    pub fn done(&self) -> (b: bool)
        requires
            self.wf(),
        ensures
            b == (self.rest().len() == 0),
            b == (self.idx == self.ops@.len()),
    {
        self.idx >= self.ops.len()
    }

    /// The operation the position stands in.
    pub fn current(&self) -> (op: &Operation)
        requires
            self.wf(),
            self.rest().len() > 0,
        ensures
            op@ is Delete == self.rest()[0] is Delete,
            op@ is Retain == self.rest()[0] is Retain,
            op@ is Insert == self.rest()[0] is Insert,
            *op == self.ops@[self.idx as int],
    {
        &self.ops[self.idx]
    }

    /// The length of what is left of the current operation.
    pub fn remaining(&self) -> (n: usize)
        requires
            self.wf(),
            self.rest().len() > 0,
        ensures
            n == self.rest()[0].len(),
    {
        proof {
            match self.ops@[self.idx as int]@ {
                Op::Insert(s) => {
                    assert(s.skip(self.used as int).len() == s.len() - self.used);
                },
                _ => {},
            }
        }
        self.cur_len - self.used
    }

    /// Takes the next `k` characters' worth of the current operation and
    /// moves past them.
    pub fn take(&mut self, k: usize) -> (op: Operation)
        requires
            old(self).wf(),
            old(self).rest().len() > 0,
            k <= old(self).rest()[0].len(),
        ensures
            final(self).wf(),
            final(self).ops == old(self).ops,
            op@ == old(self).rest()[0].head(k as nat),
            final(self).rest() == rest_after(old(self).rest(), k as nat),
            final(self).idx == old(self).idx || final(self).idx == old(self).idx + 1,
            k == old(self).rest()[0].len() ==> final(self).idx == old(self).idx + 1,
    {
        let count = self.ops.len();
        assert(self.idx < count);
        let ghost before = *self;
        let ghost all = ops_view(self.ops@);
        let ghost cur = self.ops@[self.idx as int]@;
        proof {
            match cur {
                Op::Insert(s) => {
                    assert(s.skip(self.used as int).len() == s.len() - self.used);
                },
                _ => {},
            }
        }
        let op = match &self.ops[self.idx] {
            Operation::Delete(_) => Operation::Delete(k),
            Operation::Retain(_, a) => Operation::Retain(k, *a),
            Operation::Insert(s, a) => {
                let part = s.as_str().substring_char(self.used, self.used + k);
                proof {
                    assert(s@.skip(self.used as int).take(k as int) =~= s@.subrange(
                        self.used as int,
                        self.used + k,
                    ));
                }
                Operation::Insert(part.to_owned(), *a)
            },
        };
        if self.used + k >= self.cur_len {
            self.idx = self.idx + 1;
            self.used = 0;
            self.cur_len = if self.idx < count {
                self.ops[self.idx].len()
            } else {
                0
            };
            proof {
                self.lemma_rest_at_start();
                assert(before.rest().skip(1) =~= all.skip(before.idx + 1));
            }
        } else {
            self.used = self.used + k;
            proof {
                match cur {
                    Op::Insert(s) => {
                        assert(s.skip(before.used as int).skip(k as int) =~= s.skip(
                            self.used as int,
                        ));
                    },
                    _ => {},
                }
                assert(before.rest().skip(1) =~= all.skip(before.idx + 1));
                assert(self.rest() =~= rest_after(before.rest(), k as nat));
            }
        }
        op
    }
}

} // verus!
