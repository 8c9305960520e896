//! Delta operations: the executable `Operation` and its mathematical model `Op`.

use vstd::prelude::*;

verus! {

/// The model of one operation. Lengths count Unicode scalar values.
pub enum Op {
    /// Drop the next `n` characters of the document.
    Delete(nat),
    /// Keep the next `n` characters of the document.
    Retain(nat),
    /// Put the given characters at the current position.
    Insert(Seq<char>),
}

impl Op {
    /// How many characters of the base document the operation consumes.
    pub open spec fn consumed(self) -> nat {
        match self {
            Op::Delete(n) => n,
            Op::Retain(n) => n,
            Op::Insert(_) => 0,
        }
    }

    /// How many characters the operation leaves in the target document.
    pub open spec fn produced(self) -> nat {
        match self {
            Op::Delete(_) => 0,
            Op::Retain(n) => n,
            Op::Insert(s) => s.len(),
        }
    }

    /// The number of characters the operation deletes, retains or inserts.
    pub open spec fn len(self) -> nat {
        match self {
            Op::Delete(n) => n,
            Op::Retain(n) => n,
            Op::Insert(s) => s.len(),
        }
    }

    /// An operation of length zero changes nothing.
    pub open spec fn is_empty(self) -> bool {
        self.len() == 0
    }

    /// The first `k` characters' worth of the operation.
    pub open spec fn head(self, k: nat) -> Op {
        match self {
            Op::Delete(_) => Op::Delete(k),
            Op::Retain(_) => Op::Retain(k),
            Op::Insert(s) => Op::Insert(s.take(k as int)),
        }
    }

    /// What is left of the operation after its first `k` characters.
    pub open spec fn tail(self, k: nat) -> Op {
        match self {
            Op::Delete(n) => Op::Delete((n - k) as nat),
            Op::Retain(n) => Op::Retain((n - k) as nat),
            Op::Insert(s) => Op::Insert(s.skip(k as int)),
        }
    }
}

/// The attribute set of plain text: it is always empty, and composing or
/// transforming it yields the empty set again.
#[derive(Clone, Copy, Debug, PartialEq, Eq)]
pub struct PlainTextAttributes {}

/// One operation of a delta over plain text.
#[derive(Debug, PartialEq, Eq)]
pub enum Operation {
    Delete(usize),
    Retain(usize, PlainTextAttributes),
    Insert(String, PlainTextAttributes),
}

impl View for Operation {
    type V = Op;

    open spec fn view(&self) -> Op {
        match self {
            Operation::Delete(n) => Op::Delete(*n as nat),
            Operation::Retain(n, _) => Op::Retain(*n as nat),
            Operation::Insert(s, _) => Op::Insert(s@),
        }
    }
}

impl Clone for Operation {
    fn clone(&self) -> (r: Self)
        ensures
            r == *self,
    {
        match self {
            Operation::Delete(n) => Operation::Delete(*n),
            Operation::Retain(n, a) => Operation::Retain(*n, *a),
            Operation::Insert(s, a) => Operation::Insert(s.clone(), *a),
        }
    }
}

impl Operation {
    /// A delete of `n` characters.
    pub fn delete(n: usize) -> (r: Self)
        ensures
            r@ == Op::Delete(n as nat),
    {
        Operation::Delete(n)
    }

    /// A retain of `n` characters.
    pub fn retain(n: usize) -> (r: Self)
        ensures
            r@ == Op::Retain(n as nat),
    {
        Operation::Retain(n, PlainTextAttributes {})
    }

    /// An insert of the text `s`.
    pub fn insert(s: &str) -> (r: Self)
        ensures
            r@ == Op::Insert(s@),
    {
        Operation::Insert(s.to_owned(), PlainTextAttributes {})
    }

    /// The operation's length in characters: what it deletes, retains or inserts.
    pub fn len(&self) -> (l: usize)
        ensures
            l == self@.len(),
    {
        match self {
            Operation::Delete(n) => *n,
            Operation::Retain(n, _) => *n,
            Operation::Insert(s, _) => s.as_str().unicode_len(),
        }
    }

    pub fn is_delete(&self) -> (b: bool)
        ensures
            b == (self@ is Delete),
    {
        match self {
            Operation::Delete(_) => true,
            _ => false,
        }
    }

    pub fn is_retain(&self) -> (b: bool)
        ensures
            b == (self@ is Retain),
    {
        match self {
            Operation::Retain(_, _) => true,
            _ => false,
        }
    }

    pub fn is_insert(&self) -> (b: bool)
        ensures
            b == (self@ is Insert),
    {
        match self {
            Operation::Insert(_, _) => true,
            _ => false,
        }
    }
}

/// The model of a vector of operations.
pub open spec fn ops_view(ops: Seq<Operation>) -> Seq<Op> {
    ops.map_values(|o: Operation| o@)
}

} // verus!
