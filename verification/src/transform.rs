//! Transformation of concurrent operation sequences, and the convergence law.

use crate::compose::lemma_cons;
use crate::op::Op;
use crate::semantics::{apply, base_len, min_len, rest_after, target_len};
use crate::semantics_proofs::{lemma_apply_len, lemma_apply_one, lemma_rest_after};
use vstd::prelude::*;

verus! {

/// For two operation sequences `a` and `b` on the same base document, the
/// pair `(a', b')`: `a'` does what `a` meant on a document that `b` has
/// changed, and `b'` does what `b` meant on a document that `a` has changed.
///
/// Where both insert at the same position, `a` has priority: its text comes
/// first.
pub open spec fn transform_ops(a: Seq<Op>, b: Seq<Op>) -> (Seq<Op>, Seq<Op>)
    decreases a.len() + b.len(),
{
    if a.len() > 0 && a[0] is Insert {
        let (x, y) = transform_ops(a.skip(1), b);
        (seq![a[0]] + x, seq![Op::Retain(a[0].len())] + y)
    } else if b.len() > 0 && b[0] is Insert {
        let (x, y) = transform_ops(a, b.skip(1));
        (seq![Op::Retain(b[0].len())] + x, seq![b[0]] + y)
    } else if a.len() == 0 && b.len() == 0 {
        (Seq::empty(), Seq::empty())
    } else if a.len() == 0 {
        transform_ops(a, b.skip(1))
    } else if b.len() == 0 {
        transform_ops(a.skip(1), b)
    } else {
        let k = min_len(a[0].len(), b[0].len());
        let (x, y) = transform_ops(rest_after(a, k), rest_after(b, k));
        match (a[0], b[0]) {
            (Op::Retain(_), Op::Retain(_)) => (seq![Op::Retain(k)] + x, seq![Op::Retain(k)] + y),
            (Op::Delete(_), Op::Retain(_)) => (seq![Op::Delete(k)] + x, y),
            (Op::Retain(_), Op::Delete(_)) => (x, seq![Op::Delete(k)] + y),
            _ => (x, y),
        }
    }
}

/// Convergence: with `(a', b') = transform_ops(a, b)`, applying `a` then `b'`
/// gives the same document as applying `b` then `a'`, for every document of
/// the common base length. `a'` applies after `b` and `b'` after `a`.
pub proof fn lemma_transform_converges(a: Seq<Op>, b: Seq<Op>, doc: Seq<char>)
    requires
        doc.len() == base_len(a),
        doc.len() == base_len(b),
    ensures
        base_len(transform_ops(a, b).0) == target_len(b),
        base_len(transform_ops(a, b).1) == target_len(a),
        target_len(transform_ops(a, b).0) == target_len(transform_ops(a, b).1),
        apply(transform_ops(a, b).1, apply(a, doc)) == apply(
            transform_ops(a, b).0,
            apply(b, doc),
        ),
    decreases a.len() + b.len(),
{
    let da = apply(a, doc);
    let db = apply(b, doc);
    lemma_apply_len(a, doc);
    lemma_apply_len(b, doc);
    assert(doc.skip(0) =~= doc);
    if a.len() > 0 && a[0] is Insert {
        let s = a[0]->Insert_0;
        let (x, y) = transform_ops(a.skip(1), b);
        let da1 = apply(a.skip(1), doc);
        lemma_transform_converges(a.skip(1), b, doc);
        lemma_cons(a[0], x, db);
        lemma_cons(Op::Retain(a[0].len()), y, da);
        lemma_apply_one(a[0], db);
        lemma_apply_one(Op::Retain(a[0].len()), da);
        assert(db.skip(0) =~= db);
        assert(da =~= s + da1);
        assert(da.take(s.len() as int) =~= s);
        assert(da.skip(s.len() as int) =~= da1);
    } else if b.len() > 0 && b[0] is Insert {
        let s = b[0]->Insert_0;
        let (x, y) = transform_ops(a, b.skip(1));
        let db1 = apply(b.skip(1), doc);
        lemma_transform_converges(a, b.skip(1), doc);
        lemma_cons(b[0], y, da);
        lemma_cons(Op::Retain(b[0].len()), x, db);
        lemma_apply_one(b[0], da);
        lemma_apply_one(Op::Retain(b[0].len()), db);
        assert(da.skip(0) =~= da);
        assert(db =~= s + db1);
        assert(db.take(s.len() as int) =~= s);
        assert(db.skip(s.len() as int) =~= db1);
    } else if a.len() == 0 && b.len() == 0 {
    } else if a.len() == 0 {
        lemma_transform_converges(a, b.skip(1), doc);
        assert(doc.take(0) =~= Seq::<char>::empty());
        assert(Seq::<char>::empty() + apply(b.skip(1), doc) =~= apply(b.skip(1), doc));
    } else if b.len() == 0 {
        lemma_transform_converges(a.skip(1), b, doc);
        assert(doc.take(0) =~= Seq::<char>::empty());
        assert(Seq::<char>::empty() + apply(a.skip(1), doc) =~= apply(a.skip(1), doc));
    } else {
        let k = min_len(a[0].len(), b[0].len());
        let ki = k as int;
        let ra = rest_after(a, k);
        let rb = rest_after(b, k);
        let (x, y) = transform_ops(ra, rb);
        let doc1 = doc.skip(ki);
        let da1 = apply(ra, doc1);
        let db1 = apply(rb, doc1);
        lemma_rest_after(a, k, doc);
        lemma_rest_after(b, k, doc);
        lemma_apply_one(a[0].head(k), doc);
        lemma_apply_one(b[0].head(k), doc);
        lemma_transform_converges(ra, rb, doc1);
        lemma_apply_len(ra, doc1);
        lemma_apply_len(rb, doc1);
        assert(Seq::<char>::empty() + da1 =~= da1);
        assert(Seq::<char>::empty() + db1 =~= db1);
        match (a[0], b[0]) {
            (Op::Retain(_), Op::Retain(_)) => {
                lemma_cons(Op::Retain(k), x, db);
                lemma_cons(Op::Retain(k), y, da);
                lemma_apply_one(Op::Retain(k), db);
                lemma_apply_one(Op::Retain(k), da);
                assert(da =~= doc.take(ki) + da1);
                assert(db =~= doc.take(ki) + db1);
                assert(da.take(ki) =~= doc.take(ki));
                assert(db.take(ki) =~= doc.take(ki));
                assert(da.skip(ki) =~= da1);
                assert(db.skip(ki) =~= db1);
            },
            (Op::Delete(_), Op::Retain(_)) => {
                lemma_cons(Op::Delete(k), x, db);
                lemma_apply_one(Op::Delete(k), db);
                assert(db =~= doc.take(ki) + db1);
                assert(db.skip(ki) =~= db1);
                assert(Seq::<char>::empty() + apply(x, db1) =~= apply(x, db1));
            },
            (Op::Retain(_), Op::Delete(_)) => {
                lemma_cons(Op::Delete(k), y, da);
                lemma_apply_one(Op::Delete(k), da);
                assert(da =~= doc.take(ki) + da1);
                assert(da.skip(ki) =~= da1);
                assert(Seq::<char>::empty() + apply(y, da1) =~= apply(y, da1));
            },
            _ => {},
        }
    }
}

} // verus!
