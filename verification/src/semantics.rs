//! What a sequence of operations means: its lengths, its effect on a
//! document, and its canonical form.

use crate::op::Op;
use vstd::prelude::*;

verus! {

/// Length of the documents the operations apply to.
pub open spec fn base_len(ops: Seq<Op>) -> nat
    decreases ops.len(),
{
    if ops.len() == 0 {
        0
    } else {
        ops[0].consumed() + base_len(ops.skip(1))
    }
}

/// Length of the documents the operations produce.
pub open spec fn target_len(ops: Seq<Op>) -> nat
    decreases ops.len(),
{
    if ops.len() == 0 {
        0
    } else {
        ops[0].produced() + target_len(ops.skip(1))
    }
}

/// The document that results from running `ops` over `doc`, left to right.
/// It is meaningful where `doc.len() == base_len(ops)`.
pub open spec fn apply(ops: Seq<Op>, doc: Seq<char>) -> Seq<char>
    decreases ops.len(),
{
    if ops.len() == 0 {
        Seq::empty()
    } else {
        match ops[0] {
            Op::Insert(s) => s + apply(ops.skip(1), doc),
            Op::Retain(n) => doc.take(n as int) + apply(ops.skip(1), doc.skip(n as int)),
            Op::Delete(n) => apply(ops.skip(1), doc.skip(n as int)),
        }
    }
}

/// Two neighbours are in canonical order when they are of different kinds
/// and no insert follows a delete.
pub open spec fn may_follow(prev: Op, next: Op) -> bool {
    match (prev, next) {
        (Op::Delete(_), Op::Delete(_)) => false,
        (Op::Retain(_), Op::Retain(_)) => false,
        (Op::Insert(_), Op::Insert(_)) => false,
        (Op::Delete(_), Op::Insert(_)) => false,
        _ => true,
    }
}

/// A sequence is canonical when no operation is empty and every neighbouring
/// pair is in canonical order.
#[verifier::opaque]
pub open spec fn canonical(ops: Seq<Op>) -> bool {
    &&& forall|i: int| 0 <= i < ops.len() ==> !(#[trigger] ops[i]).is_empty()
    &&& forall|i: int| 0 <= i < ops.len() - 1 ==> may_follow(#[trigger] ops[i], ops[i + 1])
}

/// Appends `op` to a canonical sequence and keeps it canonical: an empty
/// operation is dropped, an operation of the kind of the last one is merged
/// into it, and an insert that would follow a delete is put before it.
pub open spec fn push_op(ops: Seq<Op>, op: Op) -> Seq<Op> {
    if op.is_empty() {
        ops
    } else if ops.len() == 0 {
        ops.push(op)
    } else {
        match (ops.last(), op) {
            (Op::Delete(m), Op::Delete(n)) => ops.drop_last().push(Op::Delete(m + n)),
            (Op::Retain(m), Op::Retain(n)) => ops.drop_last().push(Op::Retain(m + n)),
            (Op::Insert(t), Op::Insert(s)) => ops.drop_last().push(Op::Insert(t + s)),
            (Op::Delete(m), Op::Insert(s)) => {
                let before = ops.drop_last();
                if before.len() > 0 && before.last() is Insert {
                    before.drop_last().push(Op::Insert(before.last()->Insert_0 + s)).push(
                        Op::Delete(m),
                    )
                } else {
                    before.push(Op::Insert(s)).push(Op::Delete(m))
                }
            },
            _ => ops.push(op),
        }
    }
}

/// Appends every operation of `ops` to `acc` with `push_op`, first to last.
pub open spec fn push_all(acc: Seq<Op>, ops: Seq<Op>) -> Seq<Op>
    decreases ops.len(),
{
    if ops.len() == 0 {
        acc
    } else {
        push_all(push_op(acc, ops[0]), ops.skip(1))
    }
}

/// What is left of a non-empty `ops` once the first `k` characters of its
/// first operation are dealt with, for `k` up to that operation's length.
pub open spec fn rest_after(ops: Seq<Op>, k: nat) -> Seq<Op> {
    if ops[0].len() <= k {
        ops.skip(1)
    } else {
        seq![ops[0].tail(k)] + ops.skip(1)
    }
}

/// The smaller of two lengths.
pub open spec fn min_len(m: nat, n: nat) -> nat {
    if m <= n {
        m
    } else {
        n
    }
}

/// The canonical sequence with the meaning of `ops`.
pub open spec fn normalize(ops: Seq<Op>) -> Seq<Op> {
    push_all(Seq::empty(), ops)
}

} // verus!
