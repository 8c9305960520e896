//! Sequential composition of operation sequences, and the law it obeys.

use crate::op::Op;
use crate::semantics::{apply, base_len, min_len, rest_after, target_len};
use crate::semantics_proofs::{lemma_apply_len, lemma_apply_one, lemma_len_one, lemma_rest_after};
use vstd::prelude::*;

verus! {

/// The operations that do at once what `a` and then `b` do, for
/// `target_len(a) == base_len(b)`.
///
/// A delete of `a` goes through first, then an insert of `b`; otherwise the
/// first operations of both are cut to their common length and merged: what
/// `a` retains, `b` retains or deletes; what `a` inserts, `b` keeps or drops.
pub open spec fn compose_ops(a: Seq<Op>, b: Seq<Op>) -> Seq<Op>
    decreases a.len() + b.len(),
{
    if a.len() > 0 && a[0] is Delete {
        seq![a[0]] + compose_ops(a.skip(1), b)
    } else if b.len() > 0 && b[0] is Insert {
        seq![b[0]] + compose_ops(a, b.skip(1))
    } else if a.len() == 0 && b.len() == 0 {
        Seq::empty()
    } else if a.len() == 0 {
        compose_ops(a, b.skip(1))
    } else if b.len() == 0 {
        compose_ops(a.skip(1), b)
    } else {
        let k = min_len(a[0].len(), b[0].len());
        let rest = compose_ops(rest_after(a, k), rest_after(b, k));
        match (a[0], b[0]) {
            (Op::Retain(_), Op::Retain(_)) => seq![Op::Retain(k)] + rest,
            (Op::Retain(_), Op::Delete(_)) => seq![Op::Delete(k)] + rest,
            (Op::Insert(s), Op::Retain(_)) => seq![Op::Insert(s.take(k as int))] + rest,
            _ => rest,
        }
    }
}

/// Putting one operation in front adds its lengths and its effect.
pub proof fn lemma_cons(op: Op, rest: Seq<Op>, doc: Seq<char>)
    ensures
        base_len(seq![op] + rest) == op.consumed() + base_len(rest),
        target_len(seq![op] + rest) == op.produced() + target_len(rest),
        apply(seq![op] + rest, doc) == apply(seq![op], doc) + apply(
            rest,
            doc.skip(op.consumed() as int),
        ),
{
    let ops = seq![op] + rest;
    assert(ops[0] == op);
    assert(ops.skip(1) =~= rest);
    lemma_apply_one(op, doc);
    assert(doc.skip(0) =~= doc);
    match op {
        Op::Delete(_) => {
            assert(Seq::<char>::empty() + apply(rest, doc.skip(op.consumed() as int)) =~= apply(
                rest,
                doc.skip(op.consumed() as int),
            ));
        },
        _ => {},
    }
}

/// Composition law: the composed operations take documents of `a`'s base
/// length to documents of `b`'s target length, and applying them equals
/// applying `a`, then `b`.
pub proof fn lemma_compose_apply(a: Seq<Op>, b: Seq<Op>, doc: Seq<char>)
    requires
        doc.len() == base_len(a),
        target_len(a) == base_len(b),
    ensures
        base_len(compose_ops(a, b)) == base_len(a),
        target_len(compose_ops(a, b)) == target_len(b),
        apply(compose_ops(a, b), doc) == apply(b, apply(a, doc)),
    decreases a.len() + b.len(),
{
    let c = compose_ops(a, b);
    let mid = apply(a, doc);
    lemma_apply_len(a, doc);
    if a.len() > 0 && a[0] is Delete {
        let n = a[0].consumed() as int;
        lemma_compose_apply(a.skip(1), b, doc.skip(n));
        lemma_cons(a[0], compose_ops(a.skip(1), b), doc);
        lemma_apply_one(a[0], doc);
        assert(Seq::<char>::empty() + apply(compose_ops(a.skip(1), b), doc.skip(n)) =~= apply(
            compose_ops(a.skip(1), b),
            doc.skip(n),
        ));
    } else if b.len() > 0 && b[0] is Insert {
        lemma_compose_apply(a, b.skip(1), doc);
        lemma_cons(b[0], compose_ops(a, b.skip(1)), doc);
        lemma_apply_one(b[0], doc);
        assert(doc.skip(0) =~= doc);
    } else if a.len() == 0 && b.len() == 0 {
    } else if a.len() == 0 {
        assert(mid.skip(0) =~= mid);
        assert(mid.take(0) =~= Seq::<char>::empty());
        lemma_compose_apply(a, b.skip(1), doc);
        assert(Seq::<char>::empty() + apply(b.skip(1), mid) =~= apply(b.skip(1), mid));
    } else if b.len() == 0 {
        assert(doc.skip(0) =~= doc);
        assert(doc.take(0) =~= Seq::<char>::empty());
        lemma_compose_apply(a.skip(1), b, doc);
        match a[0] {
            Op::Insert(s) => {
                assert(s =~= Seq::<char>::empty());
            },
            _ => {},
        }
        assert(Seq::<char>::empty() + apply(a.skip(1), doc) =~= apply(a.skip(1), doc));
    } else {
        let k = min_len(a[0].len(), b[0].len());
        let ra = rest_after(a, k);
        let rb = rest_after(b, k);
        let rest = compose_ops(ra, rb);
        let ha = a[0].head(k);
        let hb = b[0].head(k);
        lemma_rest_after(a, k, doc);
        lemma_rest_after(b, k, mid);
        let doc1 = doc.skip(ha.consumed() as int);
        let mid1 = apply(ra, doc1);
        lemma_apply_one(ha, doc);
        lemma_apply_one(hb, mid);
        lemma_len_one(ha);
        // what `a` writes first has length `k`, and `b` reads exactly that
        assert(apply(seq![ha], doc).len() == k);
        assert(mid =~= apply(seq![ha], doc) + mid1);
        assert(mid.skip(k as int) =~= mid1);
        assert(mid.take(k as int) =~= apply(seq![ha], doc));
        lemma_compose_apply(ra, rb, doc1);
        match (a[0], b[0]) {
            (Op::Retain(_), Op::Retain(_)) => {
                lemma_cons(Op::Retain(k), rest, doc);
                lemma_apply_one(Op::Retain(k), doc);
            },
            (Op::Retain(_), Op::Delete(_)) => {
                lemma_cons(Op::Delete(k), rest, doc);
                lemma_apply_one(Op::Delete(k), doc);
                assert(Seq::<char>::empty() + apply(rb, mid1) =~= apply(rb, mid1));
                assert(Seq::<char>::empty() + apply(rest, doc1) =~= apply(rest, doc1));
            },
            (Op::Insert(s), Op::Retain(_)) => {
                lemma_cons(Op::Insert(s.take(k as int)), rest, doc);
                lemma_apply_one(Op::Insert(s.take(k as int)), doc);
                assert(doc.skip(0) =~= doc);
            },
            _ => {
                assert(doc.skip(0) =~= doc);
                assert(Seq::<char>::empty() + apply(rb, mid1) =~= apply(rb, mid1));
            },
        }
    }
}

} // verus!
