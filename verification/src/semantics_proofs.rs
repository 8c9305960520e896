//! Lemmas on lengths, application and canonical form.

use crate::op::Op;
use crate::semantics::{
    apply, base_len, canonical, may_follow, normalize, push_all, push_op, rest_after, target_len,
};
use vstd::prelude::*;

verus! {

/// Lengths add up over concatenation.
pub proof fn lemma_len_concat(x: Seq<Op>, y: Seq<Op>)
    ensures
        base_len(x + y) == base_len(x) + base_len(y),
        target_len(x + y) == target_len(x) + target_len(y),
    decreases x.len(),
{
    if x.len() == 0 {
        assert(x + y =~= y);
    } else {
        assert((x + y).skip(1) =~= x.skip(1) + y);
        lemma_len_concat(x.skip(1), y);
    }
}

/// The lengths of a single operation.
pub proof fn lemma_len_one(op: Op)
    ensures
        base_len(seq![op]) == op.consumed(),
        target_len(seq![op]) == op.produced(),
{
    reveal_with_fuel(base_len, 2);
    reveal_with_fuel(target_len, 2);
    assert(seq![op].skip(1).len() == 0);
}

/// Lengths after one more operation.
pub proof fn lemma_len_push(x: Seq<Op>, op: Op)
    ensures
        base_len(x.push(op)) == base_len(x) + op.consumed(),
        target_len(x.push(op)) == target_len(x) + op.produced(),
{
    lemma_len_concat(x, seq![op]);
    lemma_len_one(op);
    assert(x.push(op) =~= x + seq![op]);
}

/// Applying a concatenation applies the first part to the head of the
/// document and the second part to the rest.
pub proof fn lemma_apply_concat(x: Seq<Op>, y: Seq<Op>, doc: Seq<char>)
    requires
        base_len(x) <= doc.len(),
    ensures
        apply(x + y, doc) == apply(x, doc.take(base_len(x) as int)) + apply(
            y,
            doc.skip(base_len(x) as int),
        ),
    decreases x.len(),
{
    let b = base_len(x) as int;
    if x.len() == 0 {
        assert(x + y =~= y);
        assert(doc.skip(0) =~= doc);
        assert(Seq::<char>::empty() + apply(y, doc) =~= apply(y, doc));
    } else {
        let x1 = x.skip(1);
        let b1 = base_len(x1) as int;
        assert((x + y).skip(1) =~= x1 + y);
        assert((x + y)[0] == x[0]);
        match x[0] {
            Op::Insert(s) => {
                lemma_apply_concat(x1, y, doc);
                assert(s + (apply(x1, doc.take(b1)) + apply(y, doc.skip(b1))) =~= (s + apply(
                    x1,
                    doc.take(b1),
                )) + apply(y, doc.skip(b1)));
            },
            Op::Retain(n) => {
                let n = n as int;
                let d1 = doc.skip(n);
                lemma_apply_concat(x1, y, d1);
                assert(doc.take(b).take(n) =~= doc.take(n));
                assert(doc.take(b).skip(n) =~= d1.take(b1));
                assert(d1.skip(b1) =~= doc.skip(b));
                assert(doc.take(n) + (apply(x1, d1.take(b1)) + apply(y, d1.skip(b1))) =~= (
                doc.take(n) + apply(x1, d1.take(b1))) + apply(y, d1.skip(b1)));
            },
            Op::Delete(n) => {
                let n = n as int;
                let d1 = doc.skip(n);
                lemma_apply_concat(x1, y, d1);
                assert(doc.take(b).skip(n) =~= d1.take(b1));
                assert(d1.skip(b1) =~= doc.skip(b));
            },
        }
    }
}

/// Only the first `base_len(ops)` characters of the document matter.
pub proof fn lemma_apply_prefix(ops: Seq<Op>, doc: Seq<char>)
    requires
        base_len(ops) <= doc.len(),
    ensures
        apply(ops, doc) == apply(ops, doc.take(base_len(ops) as int)),
{
    lemma_apply_concat(ops, Seq::empty(), doc);
    assert(ops + Seq::<Op>::empty() =~= ops);
    assert(apply(Seq::<Op>::empty(), doc.skip(base_len(ops) as int)) =~= Seq::<char>::empty());
    assert(apply(ops, doc.take(base_len(ops) as int)) + Seq::<char>::empty() =~= apply(
        ops,
        doc.take(base_len(ops) as int),
    ));
}

/// The result of applying operations has their target length.
pub proof fn lemma_apply_len(ops: Seq<Op>, doc: Seq<char>)
    requires
        doc.len() == base_len(ops),
    ensures
        apply(ops, doc).len() == target_len(ops),
    decreases ops.len(),
{
    if ops.len() > 0 {
        match ops[0] {
            Op::Insert(s) => {
                lemma_apply_len(ops.skip(1), doc);
            },
            Op::Retain(n) => {
                lemma_apply_len(ops.skip(1), doc.skip(n as int));
            },
            Op::Delete(n) => {
                lemma_apply_len(ops.skip(1), doc.skip(n as int));
            },
        }
    }
}

/// What a single operation does to a document.
pub proof fn lemma_apply_one(op: Op, doc: Seq<char>)
    ensures
        apply(seq![op], doc) == match op {
            Op::Insert(s) => s,
            Op::Retain(n) => doc.take(n as int),
            Op::Delete(_) => Seq::<char>::empty(),
        },
{
    reveal_with_fuel(apply, 2);
    assert(seq![op].skip(1).len() == 0);
    match op {
        Op::Insert(s) => {
            assert(s + Seq::<char>::empty() =~= s);
        },
        Op::Retain(n) => {
            assert(doc.take(n as int) + Seq::<char>::empty() =~= doc.take(n as int));
        },
        Op::Delete(_) => {},
    }
}

/// What two operations in a row do to a document.
pub proof fn lemma_apply_two(o1: Op, o2: Op, doc: Seq<char>)
    requires
        o1.consumed() <= doc.len(),
    ensures
        apply(seq![o1, o2], doc) == apply(seq![o1], doc) + apply(
            seq![o2],
            doc.skip(o1.consumed() as int),
        ),
{
    lemma_len_one(o1);
    lemma_apply_concat(seq![o1], seq![o2], doc);
    assert(seq![o1] + seq![o2] =~= seq![o1, o2]);
    lemma_apply_prefix(seq![o1], doc);
}

/// Taking `k` characters off the first operation splits lengths and effect
/// into that head and the rest.
pub proof fn lemma_rest_after(ops: Seq<Op>, k: nat, doc: Seq<char>)
    requires
        ops.len() > 0,
        k <= ops[0].len(),
        base_len(ops) <= doc.len(),
    ensures
        base_len(ops) == ops[0].head(k).consumed() + base_len(rest_after(ops, k)),
        target_len(ops) == ops[0].head(k).produced() + target_len(rest_after(ops, k)),
        apply(ops, doc) == apply(seq![ops[0].head(k)], doc) + apply(
            rest_after(ops, k),
            doc.skip(ops[0].head(k).consumed() as int),
        ),
{
    let op = ops[0];
    let rest = rest_after(ops, k);
    let ki = k as int;
    lemma_apply_one(op.head(k), doc);
    assert(doc.skip(0) =~= doc);
    if op.len() <= k {
        match op {
            Op::Insert(s) => {
                assert(s.take(ki) =~= s);
            },
            _ => {},
        }
    } else {
        assert(rest[0] == op.tail(k));
        assert(rest.skip(1) =~= ops.skip(1));
        match op {
            Op::Insert(s) => {
                assert(s.take(ki) + (s.skip(ki) + apply(ops.skip(1), doc)) =~= s + apply(
                    ops.skip(1),
                    doc,
                ));
            },
            Op::Retain(n) => {
                let d1 = doc.skip(ki);
                assert(d1.skip(n - ki) =~= doc.skip(n as int));
                assert(doc.take(ki) + (d1.take(n - ki) + apply(ops.skip(1), d1.skip(n - ki)))
                    =~= doc.take(n as int) + apply(ops.skip(1), doc.skip(n as int)));
            },
            Op::Delete(n) => {
                let d1 = doc.skip(ki);
                assert(d1.skip(n - ki) =~= doc.skip(n as int));
                assert(Seq::<char>::empty() + apply(rest, d1) =~= apply(rest, d1));
            },
        }
    }
}

/// Taking `k` characters off the first operation splits the lengths.
pub proof fn lemma_rest_after_len(ops: Seq<Op>, k: nat)
    requires
        ops.len() > 0,
        k <= ops[0].len(),
    ensures
        base_len(ops) == ops[0].head(k).consumed() + base_len(rest_after(ops, k)),
        target_len(ops) == ops[0].head(k).produced() + target_len(rest_after(ops, k)),
{
    lemma_rest_after(ops, k, Seq::new(base_len(ops), |i: int| ' '));
}

/// Replacing the tail of a sequence by one of the same meaning keeps the meaning.
pub proof fn lemma_replace_tail(p: Seq<Op>, t1: Seq<Op>, t2: Seq<Op>, doc: Seq<char>)
    requires
        base_len(p) <= doc.len(),
        apply(t1, doc.skip(base_len(p) as int)) == apply(t2, doc.skip(base_len(p) as int)),
    ensures
        apply(p + t1, doc) == apply(p + t2, doc),
{
    lemma_apply_concat(p, t1, doc);
    lemma_apply_concat(p, t2, doc);
}

/// `push_op` adds the operation's lengths.
pub proof fn lemma_push_op_len(ops: Seq<Op>, op: Op)
    ensures
        base_len(push_op(ops, op)) == base_len(ops) + op.consumed(),
        target_len(push_op(ops, op)) == target_len(ops) + op.produced(),
{
    if op.is_empty() {
    } else if ops.len() == 0 {
        lemma_len_push(ops, op);
    } else {
        let p = ops.drop_last();
        let last = ops.last();
        assert(ops =~= p.push(last));
        lemma_len_push(p, last);
        match (last, op) {
            (Op::Delete(m), Op::Delete(n)) => {
                lemma_len_push(p, Op::Delete(m + n));
            },
            (Op::Retain(m), Op::Retain(n)) => {
                lemma_len_push(p, Op::Retain(m + n));
            },
            (Op::Insert(t), Op::Insert(s)) => {
                lemma_len_push(p, Op::Insert(t + s));
            },
            (Op::Delete(m), Op::Insert(s)) => {
                if p.len() > 0 && p.last() is Insert {
                    let q = p.drop_last();
                    let t = p.last()->Insert_0;
                    assert(p =~= q.push(p.last()));
                    lemma_len_push(q, p.last());
                    lemma_len_push(q, Op::Insert(t + s));
                    lemma_len_push(q.push(Op::Insert(t + s)), Op::Delete(m));
                } else {
                    lemma_len_push(p, Op::Insert(s));
                    lemma_len_push(p.push(Op::Insert(s)), Op::Delete(m));
                }
            },
            _ => {
                lemma_len_push(ops, op);
            },
        }
    }
}

/// `push_op` means the same as appending the operation.
pub proof fn lemma_push_op_apply(ops: Seq<Op>, op: Op, doc: Seq<char>)
    requires
        doc.len() == base_len(ops) + op.consumed(),
    ensures
        apply(push_op(ops, op), doc) == apply(ops.push(op), doc),
{
    let b = base_len(ops) as int;
    assert(ops.push(op) =~= ops + seq![op]);
    if op.is_empty() {
        lemma_apply_concat(ops, seq![op], doc);
        lemma_apply_one(op, doc.skip(b));
        assert(doc.skip(b).take(0) =~= Seq::<char>::empty());
        assert(doc.take(b) =~= doc);
        assert(apply(ops, doc) + Seq::<char>::empty() =~= apply(ops, doc));
    } else if ops.len() == 0 {
    } else {
        let p = ops.drop_last();
        let last = ops.last();
        let bp = base_len(p) as int;
        let r = doc.skip(bp);
        assert(ops =~= p.push(last));
        lemma_len_push(p, last);
        assert(ops.push(op) =~= p + seq![last, op]);
        lemma_apply_two(last, op, r);
        lemma_apply_one(last, r);
        lemma_apply_one(op, r.skip(last.consumed() as int));
        match (last, op) {
            (Op::Delete(m), Op::Delete(n)) => {
                let merged = Op::Delete(m + n);
                lemma_apply_one(merged, r);
                assert(p.push(merged) =~= p + seq![merged]);
                lemma_replace_tail(p, seq![merged], seq![last, op], doc);
            },
            (Op::Retain(m), Op::Retain(n)) => {
                let merged = Op::Retain(m + n);
                lemma_apply_one(merged, r);
                assert(r.take(m as int) + r.skip(m as int).take(n as int) =~= r.take(
                    (m + n) as int,
                ));
                assert(p.push(merged) =~= p + seq![merged]);
                lemma_replace_tail(p, seq![merged], seq![last, op], doc);
            },
            (Op::Insert(t), Op::Insert(s)) => {
                let merged = Op::Insert(t + s);
                lemma_apply_one(merged, r);
                assert(p.push(merged) =~= p + seq![merged]);
                lemma_replace_tail(p, seq![merged], seq![last, op], doc);
            },
            (Op::Delete(m), Op::Insert(s)) => {
                assert(Seq::<char>::empty() + s =~= s);
                if p.len() > 0 && p.last() is Insert {
                    let q = p.drop_last();
                    let t = p.last()->Insert_0;
                    let merged = Op::Insert(t + s);
                    assert(p =~= q.push(p.last()));
                    lemma_len_push(q, p.last());
                    let bq = base_len(q) as int;
                    assert(bq == bp);
                    assert(ops.push(op) =~= q + (seq![p.last()] + seq![last, op]));
                    assert(q.push(merged).push(last) =~= q + seq![merged, last]);
                    lemma_len_one(p.last());
                    lemma_apply_concat(seq![p.last()], seq![last, op], r);
                    lemma_apply_one(p.last(), r.take(0));
                    assert(r.skip(0) =~= r);
                    lemma_apply_two(merged, last, r);
                    lemma_apply_one(merged, r);
                    lemma_apply_one(last, r);
                    assert((t + s) + Seq::<char>::empty() =~= t + s);
                    lemma_replace_tail(q, seq![merged, last], seq![p.last()] + seq![last, op], doc);
                } else {
                    assert(p.push(op).push(last) =~= p + seq![op, last]);
                    assert(r.skip(0) =~= r);
                    lemma_apply_two(op, last, r);
                    lemma_apply_one(op, r);
                    lemma_apply_one(last, r);
                    assert(s + Seq::<char>::empty() =~= s);
                    lemma_replace_tail(p, seq![op, last], seq![last, op], doc);
                }
            },
            _ => {},
        }
    }
}

/// `push_op` keeps a canonical sequence canonical.
pub proof fn lemma_push_op_canonical(ops: Seq<Op>, op: Op)
    requires
        canonical(ops),
    ensures
        canonical(push_op(ops, op)),
{
    reveal(canonical);
    let r = push_op(ops, op);
    if op.is_empty() {
    } else if ops.len() == 0 {
    } else {
        let p = ops.drop_last();
        let last = ops.last();
        let k = ops.len() as int;
        assert(last == ops[k - 1]);
        match (last, op) {
            (Op::Delete(m), Op::Insert(s)) => {
                if p.len() > 0 && p.last() is Insert {
                    assert(p.last() == ops[k - 2]);
                    assert forall|i: int| 0 <= i < r.len() implies !(#[trigger] r[i]).is_empty() by {
                        if i < k - 2 {
                            assert(r[i] == ops[i]);
                        }
                    }
                    assert forall|i: int| 0 <= i < r.len() - 1 implies may_follow(
                        #[trigger] r[i],
                        r[i + 1],
                    ) by {
                        if i < k - 3 {
                            assert(r[i] == ops[i]);
                            assert(r[i + 1] == ops[i + 1]);
                        } else if i == k - 3 {
                            assert(r[i] == ops[i]);
                            assert(may_follow(ops[i], ops[i + 1]));
                        }
                    }
                } else {
                    assert forall|i: int| 0 <= i < r.len() implies !(#[trigger] r[i]).is_empty() by {
                        if i < k - 1 {
                            assert(r[i] == ops[i]);
                        }
                    }
                    assert forall|i: int| 0 <= i < r.len() - 1 implies may_follow(
                        #[trigger] r[i],
                        r[i + 1],
                    ) by {
                        if i < k - 2 {
                            assert(r[i] == ops[i]);
                            assert(r[i + 1] == ops[i + 1]);
                        } else if i == k - 2 {
                            assert(r[i] == ops[i]);
                            assert(may_follow(ops[i], ops[i + 1]));
                        }
                    }
                }
            },
            _ => {
                assert forall|i: int| 0 <= i < r.len() implies !(#[trigger] r[i]).is_empty() by {
                    if i < k - 1 {
                        assert(r[i] == ops[i]);
                    }
                }
                assert forall|i: int| 0 <= i < r.len() - 1 implies may_follow(
                    #[trigger] r[i],
                    r[i + 1],
                ) by {
                    if i < k - 2 {
                        assert(r[i] == ops[i]);
                        assert(r[i + 1] == ops[i + 1]);
                    } else if i == k - 2 {
                        assert(r[i] == ops[i]);
                        assert(may_follow(ops[i], ops[i + 1]));
                    }
                }
            },
        }
    }
}

/// `push_all` takes up the operations one by one.
pub proof fn lemma_push_all_cons(acc: Seq<Op>, op: Op, rest: Seq<Op>)
    ensures
        push_all(acc, seq![op] + rest) == push_all(push_op(acc, op), rest),
{
    let ops = seq![op] + rest;
    assert(ops[0] == op);
    assert(ops.skip(1) =~= rest);
}

/// `push_all` ends with the last operation.
pub proof fn lemma_push_all_snoc(acc: Seq<Op>, ops: Seq<Op>, op: Op)
    ensures
        push_all(acc, ops.push(op)) == push_op(push_all(acc, ops), op),
    decreases ops.len(),
{
    let all = ops.push(op);
    if ops.len() == 0 {
        assert(all.skip(1) =~= Seq::<Op>::empty());
        assert(push_all(push_op(acc, op), all.skip(1)) == push_op(acc, op));
    } else {
        assert(all[0] == ops[0]);
        assert(all.skip(1) =~= ops.skip(1).push(op));
        lemma_push_all_snoc(push_op(acc, ops[0]), ops.skip(1), op);
    }
}

/// Appending to a sequence that stays canonical is plain concatenation.
pub proof fn lemma_push_all_canonical(acc: Seq<Op>, ops: Seq<Op>)
    requires
        canonical(acc + ops),
    ensures
        push_all(acc, ops) == acc + ops,
    decreases ops.len(),
{
    if ops.len() == 0 {
        assert(acc + ops =~= acc);
    } else {
        let o = ops[0];
        let all = acc + ops;
        let k = acc.len() as int;
        assert(all[k] == o);
        assert(push_op(acc, o) == acc.push(o)) by {
            reveal(canonical);
            assert(!all[k].is_empty());
            if k > 0 {
                assert(all[k - 1] == acc.last());
                assert(may_follow(all[k - 1], all[k - 1 + 1]));
            }
        }
        assert(acc.push(o) + ops.skip(1) =~= all);
        lemma_push_all_canonical(acc.push(o), ops.skip(1));
    }
}

/// A canonical sequence is its own normal form.
pub proof fn lemma_normalize_canonical(ops: Seq<Op>)
    requires
        canonical(ops),
    ensures
        normalize(ops) == ops,
{
    assert(Seq::<Op>::empty() + ops =~= ops);
    lemma_push_all_canonical(Seq::empty(), ops);
}

/// `push_all` adds the lengths of what it appends and keeps the sequence canonical.
pub proof fn lemma_push_all(acc: Seq<Op>, ops: Seq<Op>)
    ensures
        base_len(push_all(acc, ops)) == base_len(acc) + base_len(ops),
        target_len(push_all(acc, ops)) == target_len(acc) + target_len(ops),
        canonical(acc) ==> canonical(push_all(acc, ops)),
    decreases ops.len(),
{
    if ops.len() > 0 {
        lemma_push_op_len(acc, ops[0]);
        if canonical(acc) {
            lemma_push_op_canonical(acc, ops[0]);
        }
        lemma_push_all(push_op(acc, ops[0]), ops.skip(1));
    }
}

/// `push_all` means the same as concatenation.
pub proof fn lemma_push_all_apply(acc: Seq<Op>, ops: Seq<Op>, doc: Seq<char>)
    requires
        doc.len() == base_len(acc) + base_len(ops),
    ensures
        apply(push_all(acc, ops), doc) == apply(acc + ops, doc),
    decreases ops.len(),
{
    if ops.len() == 0 {
        assert(acc + ops =~= acc);
    } else {
        let o = ops[0];
        let rest = ops.skip(1);
        let acc1 = push_op(acc, o);
        lemma_push_op_len(acc, o);
        lemma_len_push(acc, o);
        lemma_push_all_apply(acc1, rest, doc);
        let b1 = base_len(acc1) as int;
        lemma_apply_concat(acc1, rest, doc);
        lemma_apply_concat(acc.push(o), rest, doc);
        lemma_push_op_apply(acc, o, doc.take(b1));
        assert(acc.push(o) + rest =~= acc + ops);
    }
}

/// Normalising keeps the lengths and the meaning, and gives a canonical sequence.
pub proof fn lemma_normalize(ops: Seq<Op>)
    ensures
        base_len(normalize(ops)) == base_len(ops),
        target_len(normalize(ops)) == target_len(ops),
        canonical(normalize(ops)),
        forall|doc: Seq<char>|
            doc.len() == base_len(ops) ==> #[trigger] apply(normalize(ops), doc) == apply(ops, doc),
{
    assert(canonical(Seq::<Op>::empty())) by {
        reveal(canonical);
    }
    lemma_push_all(Seq::empty(), ops);
    assert forall|doc: Seq<char>| doc.len() == base_len(ops) implies #[trigger] apply(
        normalize(ops),
        doc,
    ) == apply(ops, doc) by {
        lemma_push_all_apply(Seq::empty(), ops, doc);
        assert(Seq::<Op>::empty() + ops =~= ops);
    }
}

} // verus!
