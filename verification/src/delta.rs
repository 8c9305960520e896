//! Deltas: canonical sequences of operations with their cached lengths.

use crate::compose::{compose_ops, lemma_compose_apply};
use crate::cursor::Cursor;
use crate::errors::ErrorCode;
use crate::op::{ops_view, Op, Operation, PlainTextAttributes};
use crate::semantics::{
    apply, base_len, canonical, normalize, push_all, push_op, target_len,
};
use crate::semantics_proofs::{
    lemma_apply_len, lemma_len_push, lemma_normalize, lemma_push_all_cons, lemma_push_op_canonical,
    lemma_push_op_len, lemma_rest_after_len,
};
use crate::transform::{lemma_transform_converges, transform_ops};
use vstd::prelude::*;

verus! {

/// An edit of a document: operations that run over it from left to right.
#[derive(Debug, PartialEq, Eq)]
pub struct Delta {
    ops: Vec<Operation>,
    base_len: usize,
    target_len: usize,
}

impl View for Delta {
    type V = Seq<Op>;

    closed spec fn view(&self) -> Seq<Op> {
        ops_view(self.ops@)
    }
}

impl Clone for Delta {
    fn clone(&self) -> (d: Self)
        ensures
            d@ == self@,
    {
        proof {
            use_type_invariant(self);
        }
        let mut ops: Vec<Operation> = Vec::new();
        let mut i: usize = 0;
        while i < self.ops.len()
            invariant
                i <= self.ops@.len(),
                ops_view(ops@) == self@.take(i as int),
            decreases self.ops@.len() - i,
        {
            let ghost before = ops_view(ops@);
            ops.push(self.ops[i].clone());
            proof {
                assert(ops_view(ops@) =~= before.push(self.ops@[i as int]@));
                assert(self@.take(i + 1) =~= self@.take(i as int).push(self.ops@[i as int]@));
            }
            i = i + 1;
        }
        proof {
            assert(self@.take(i as int) =~= self@);
        }
        Delta::from_parts(ops, self.base_len, self.target_len)
    }
}

impl Delta {
    /// The operations are canonical and the cached lengths are theirs.
    #[verifier::type_invariant]
    spec fn inv(&self) -> bool {
        &&& canonical(ops_view(self.ops@))
        &&& self.base_len == base_len(ops_view(self.ops@))
        &&& self.target_len == target_len(ops_view(self.ops@))
    }

    /// The delta that changes nothing in the empty document.
    pub fn new() -> (d: Self)
        ensures
            d@ == Seq::<Op>::empty(),
    {
        proof {
            assert(ops_view(Seq::<Operation>::empty()) =~= Seq::<Op>::empty());
            reveal(canonical);
        }
        Delta { ops: Vec::new(), base_len: 0, target_len: 0 }
    }

    /// Length of the documents this delta applies to.
    pub fn base_len(&self) -> (n: usize)
        ensures
            n == base_len(self@),
    {
        proof {
            use_type_invariant(self);
        }
        self.base_len
    }

    /// Length of the documents this delta produces.
    pub fn target_len(&self) -> (n: usize)
        ensures
            n == target_len(self@),
    {
        proof {
            use_type_invariant(self);
        }
        self.target_len
    }

    /// The operations, first to last. They are canonical.
    pub fn ops(&self) -> (ops: &Vec<Operation>)
        ensures
            ops_view(ops@) == self@,
            canonical(self@),
    {
        proof {
            use_type_invariant(self);
        }
        &self.ops
    }

    /// Whether the delta has no operations.
    pub fn is_empty(&self) -> (b: bool)
        ensures
            b == (self@.len() == 0),
    {
        self.ops.len() == 0
    }

    /// Takes the delta apart and leaves the empty delta.
    fn take_parts(&mut self) -> (parts: (Vec<Operation>, usize, usize))
        ensures
            final(self)@ == Seq::<Op>::empty(),
            ops_view(parts.0@) == old(self)@,
            canonical(old(self)@),
            parts.1 == base_len(old(self)@),
            parts.2 == target_len(old(self)@),
    {
        proof {
            use_type_invariant(&*self);
        }
        let mut cur = Delta::new();
        core::mem::swap(self, &mut cur);
        let Delta { ops, base_len, target_len } = cur;
        (ops, base_len, target_len)
    }

    /// A delta of canonical operations and their lengths.
    fn from_parts(ops: Vec<Operation>, base_len: usize, target_len: usize) -> (d: Self)
        requires
            canonical(ops_view(ops@)),
            base_len == self::base_len(ops_view(ops@)),
            target_len == self::target_len(ops_view(ops@)),
        ensures
            d@ == ops_view(ops@),
    {
        Delta { ops, base_len, target_len }
    }

    /// Appends a delete of `n` characters.
    pub fn delete(&mut self, n: usize)
        requires
            base_len(old(self)@) + n <= usize::MAX,
        ensures
            final(self)@ == push_op(old(self)@, Op::Delete(n as nat)),
            base_len(final(self)@) == base_len(old(self)@) + n,
            target_len(final(self)@) == target_len(old(self)@),
    {
        let ghost before = self@;
        let ghost op = Op::Delete(n as nat);
        if n == 0 {
            return ;
        }
        let (mut ops, base, target) = self.take_parts();
        proof {
            lemma_push_op_len(before, op);
            lemma_push_op_canonical(before, op);
        }
        let last = ops.pop();
        match last {
            Some(Operation::Delete(m)) => {
                proof {
                    assert(before.last() == Op::Delete(m as nat));
                    lemma_len_push(before.drop_last(), before.last());
                    assert(before =~= before.drop_last().push(before.last()));
                }
                ops.push(Operation::Delete(m + n));
            },
            Some(other) => {
                assert(before.last() == other@);
                ops.push(other);
                ops.push(Operation::Delete(n));
            },
            None => {
                ops.push(Operation::Delete(n));
            },
        }
        assert(ops_view(ops@) =~= push_op(before, op));
        *self = Delta::from_parts(ops, base + n, target);
    }

    /// Appends a retain of `n` characters.
    pub fn retain(&mut self, n: usize, attributes: PlainTextAttributes)
        requires
            base_len(old(self)@) + n <= usize::MAX,
            target_len(old(self)@) + n <= usize::MAX,
        ensures
            final(self)@ == push_op(old(self)@, Op::Retain(n as nat)),
            base_len(final(self)@) == base_len(old(self)@) + n,
            target_len(final(self)@) == target_len(old(self)@) + n,
    {
        let ghost before = self@;
        let ghost op = Op::Retain(n as nat);
        if n == 0 {
            return ;
        }
        let (mut ops, base, target) = self.take_parts();
        proof {
            lemma_push_op_len(before, op);
            lemma_push_op_canonical(before, op);
        }
        let last = ops.pop();
        match last {
            Some(Operation::Retain(m, a)) => {
                proof {
                    assert(before.last() == Op::Retain(m as nat));
                    lemma_len_push(before.drop_last(), before.last());
                    assert(before =~= before.drop_last().push(before.last()));
                }
                ops.push(Operation::Retain(m + n, a));
            },
            Some(other) => {
                assert(before.last() == other@);
                ops.push(other);
                ops.push(Operation::Retain(n, attributes));
            },
            None => {
                ops.push(Operation::Retain(n, attributes));
            },
        }
        assert(ops_view(ops@) =~= push_op(before, op));
        *self = Delta::from_parts(ops, base + n, target + n);
    }

    /// Appends an insert of the text `s`. After a delete the insert goes in
    /// front of it, which means the same.
    pub fn insert(&mut self, s: &str, attributes: PlainTextAttributes)
        requires
            target_len(old(self)@) + s@.len() <= usize::MAX,
        ensures
            final(self)@ == push_op(old(self)@, Op::Insert(s@)),
            base_len(final(self)@) == base_len(old(self)@),
            target_len(final(self)@) == target_len(old(self)@) + s@.len(),
    {
        let ghost before = self@;
        let ghost op = Op::Insert(s@);
        let n = s.unicode_len();
        if n == 0 {
            return ;
        }
        let (mut ops, base, target) = self.take_parts();
        proof {
            lemma_push_op_len(before, op);
            lemma_push_op_canonical(before, op);
        }
        let last = ops.pop();
        match last {
            Some(Operation::Insert(t, a)) => {
                assert(before.last() == Op::Insert(t@));
                let mut t = t;
                t.append(s);
                ops.push(Operation::Insert(t, a));
            },
            Some(Operation::Delete(m)) => {
                assert(before.last() == Op::Delete(m as nat));
                let ghost mid = before.drop_last();
                assert(ops_view(ops@) =~= mid);
                let prev = ops.pop();
                match prev {
                    Some(Operation::Insert(t, a)) => {
                        assert(mid.last() == Op::Insert(t@));
                        let mut t = t;
                        t.append(s);
                        ops.push(Operation::Insert(t, a));
                        ops.push(Operation::Delete(m));
                    },
                    Some(other) => {
                        assert(mid.last() == other@);
                        ops.push(other);
                        ops.push(Operation::Insert(s.to_owned(), attributes));
                        ops.push(Operation::Delete(m));
                    },
                    None => {
                        ops.push(Operation::Insert(s.to_owned(), attributes));
                        ops.push(Operation::Delete(m));
                    },
                }
            },
            Some(other) => {
                assert(before.last() == other@);
                ops.push(other);
                ops.push(Operation::Insert(s.to_owned(), attributes));
            },
            None => {
                ops.push(Operation::Insert(s.to_owned(), attributes));
            },
        }
        assert(ops_view(ops@) =~= push_op(before, op));
        *self = Delta::from_parts(ops, base, target + n);
    }

    /// Appends `op`, whatever its kind.
    pub fn add(&mut self, op: Operation)
        requires
            base_len(old(self)@) + op@.consumed() <= usize::MAX,
            target_len(old(self)@) + op@.produced() <= usize::MAX,
        ensures
            final(self)@ == push_op(old(self)@, op@),
            base_len(final(self)@) == base_len(old(self)@) + op@.consumed(),
            target_len(final(self)@) == target_len(old(self)@) + op@.produced(),
    {
        match op {
            Operation::Delete(n) => self.delete(n),
            Operation::Retain(n, a) => self.retain(n, a),
            Operation::Insert(s, a) => self.insert(s.as_str(), a),
        }
    }

    /// One step of composition: moves at least one cursor on and appends to
    /// `out` what `compose_ops` puts first.
    fn compose_step(out: &mut Delta, ca: &mut Cursor, cb: &mut Cursor)
        requires
            old(ca).wf(),
            old(cb).wf(),
            old(ca).rest().len() > 0 || old(cb).rest().len() > 0,
            target_len(old(ca).rest()) == base_len(old(cb).rest()),
            base_len(old(out)@) + base_len(old(ca).rest()) <= usize::MAX,
            target_len(old(out)@) + target_len(old(cb).rest()) <= usize::MAX,
        ensures
            final(ca).wf(),
            final(cb).wf(),
            target_len(final(ca).rest()) == base_len(final(cb).rest()),
            push_all(final(out)@, compose_ops(final(ca).rest(), final(cb).rest())) == push_all(
                old(out)@,
                compose_ops(old(ca).rest(), old(cb).rest()),
            ),
            base_len(final(out)@) + base_len(final(ca).rest()) == base_len(old(out)@) + base_len(
                old(ca).rest(),
            ),
            target_len(final(out)@) + target_len(final(cb).rest()) == target_len(old(out)@)
                + target_len(old(cb).rest()),
            final(ca).ops_left() + final(cb).ops_left() < old(ca).ops_left() + old(cb).ops_left(),
    {
        let ghost ra = ca.rest();
        let ghost rb = cb.rest();
        let ghost acc = out@;
        if !ca.done() && ca.current().is_delete() {
            let n = ca.remaining();
            proof {
                lemma_rest_after_len(ra, n as nat);
            }
            let op = ca.take(n);
            proof {
                assert(op@ == ra[0]);
                lemma_push_all_cons(acc, ra[0], compose_ops(ra.skip(1), rb));
            }
            out.add(op);
        } else if !cb.done() && cb.current().is_insert() {
            let n = cb.remaining();
            proof {
                lemma_rest_after_len(rb, n as nat);
            }
            let op = cb.take(n);
            proof {
                assert(rb[0]->Insert_0.take(n as int) =~= rb[0]->Insert_0);
                assert(op@ == rb[0]);
                lemma_push_all_cons(acc, rb[0], compose_ops(ra, rb.skip(1)));
            }
            out.add(op);
        } else if ca.done() {
            let n = cb.remaining();
            proof {
                lemma_rest_after_len(rb, n as nat);
            }
            let _ = cb.take(n);
        } else if cb.done() {
            let n = ca.remaining();
            proof {
                lemma_rest_after_len(ra, n as nat);
            }
            let _ = ca.take(n);
        } else {
            let la = ca.remaining();
            let lb = cb.remaining();
            let k = if la <= lb {
                la
            } else {
                lb
            };
            proof {
                lemma_rest_after_len(ra, k as nat);
                lemma_rest_after_len(rb, k as nat);
            }
            let oa = ca.take(k);
            let ob = cb.take(k);
            let ghost rest = compose_ops(ca.rest(), cb.rest());
            match (oa, ob) {
                (Operation::Retain(_, a), Operation::Retain(_, _)) => {
                    proof {
                        lemma_push_all_cons(acc, Op::Retain(k as nat), rest);
                    }
                    out.retain(k, a);
                },
                (Operation::Retain(_, _), Operation::Delete(_)) => {
                    proof {
                        lemma_push_all_cons(acc, Op::Delete(k as nat), rest);
                    }
                    out.delete(k);
                },
                (Operation::Insert(s, a), Operation::Retain(_, _)) => {
                    proof {
                        lemma_push_all_cons(acc, Op::Insert(s@), rest);
                    }
                    out.insert(s.as_str(), a);
                },
                _ => {},
            }
        }
    }

    /// One step of transformation: moves at least one cursor on and appends
    /// to `xa` and `yb` what `transform_ops` puts first.
    fn transform_step(xa: &mut Delta, yb: &mut Delta, ca: &mut Cursor, cb: &mut Cursor)
        requires
            old(ca).wf(),
            old(cb).wf(),
            old(ca).rest().len() > 0 || old(cb).rest().len() > 0,
            base_len(old(ca).rest()) == base_len(old(cb).rest()),
            target_len(old(xa)@) == target_len(old(yb)@),
            base_len(old(xa)@) + target_len(old(cb).rest()) <= usize::MAX,
            base_len(old(yb)@) + target_len(old(ca).rest()) <= usize::MAX,
            target_len(old(xa)@) + target_len(old(ca).rest()) + target_len(old(cb).rest())
                <= usize::MAX,
        ensures
            final(ca).wf(),
            final(cb).wf(),
            base_len(final(ca).rest()) == base_len(final(cb).rest()),
            push_all(final(xa)@, transform_ops(final(ca).rest(), final(cb).rest()).0) == push_all(
                old(xa)@,
                transform_ops(old(ca).rest(), old(cb).rest()).0,
            ),
            push_all(final(yb)@, transform_ops(final(ca).rest(), final(cb).rest()).1) == push_all(
                old(yb)@,
                transform_ops(old(ca).rest(), old(cb).rest()).1,
            ),
            base_len(final(xa)@) + target_len(final(cb).rest()) == base_len(old(xa)@) + target_len(
                old(cb).rest(),
            ),
            base_len(final(yb)@) + target_len(final(ca).rest()) == base_len(old(yb)@) + target_len(
                old(ca).rest(),
            ),
            target_len(final(xa)@) == target_len(final(yb)@),
            target_len(final(xa)@) + target_len(final(ca).rest()) + target_len(final(cb).rest())
                <= target_len(old(xa)@) + target_len(old(ca).rest()) + target_len(
                old(cb).rest(),
            ),
            final(ca).ops_left() + final(cb).ops_left() < old(ca).ops_left() + old(cb).ops_left(),
    {
        let ghost ra = ca.rest();
        let ghost rb = cb.rest();
        let ghost accx = xa@;
        let ghost accy = yb@;
        if !ca.done() && ca.current().is_insert() {
            let n = ca.remaining();
            proof {
                lemma_rest_after_len(ra, n as nat);
            }
            let op = ca.take(n);
            proof {
                assert(ra[0]->Insert_0.take(n as int) =~= ra[0]->Insert_0);
                assert(op@ == ra[0]);
                let (x, y) = transform_ops(ra.skip(1), rb);
                lemma_push_all_cons(accx, ra[0], x);
                lemma_push_all_cons(accy, Op::Retain(n as nat), y);
            }
            xa.add(op);
            yb.retain(n, PlainTextAttributes {  });
        } else if !cb.done() && cb.current().is_insert() {
            let n = cb.remaining();
            proof {
                lemma_rest_after_len(rb, n as nat);
            }
            let op = cb.take(n);
            proof {
                assert(rb[0]->Insert_0.take(n as int) =~= rb[0]->Insert_0);
                assert(op@ == rb[0]);
                let (x, y) = transform_ops(ra, rb.skip(1));
                lemma_push_all_cons(accx, Op::Retain(n as nat), x);
                lemma_push_all_cons(accy, rb[0], y);
            }
            xa.retain(n, PlainTextAttributes {  });
            yb.add(op);
        } else if ca.done() {
            let n = cb.remaining();
            proof {
                lemma_rest_after_len(rb, n as nat);
            }
            let _ = cb.take(n);
        } else if cb.done() {
            let n = ca.remaining();
            proof {
                lemma_rest_after_len(ra, n as nat);
            }
            let _ = ca.take(n);
        } else {
            let la = ca.remaining();
            let lb = cb.remaining();
            let k = if la <= lb {
                la
            } else {
                lb
            };
            proof {
                lemma_rest_after_len(ra, k as nat);
                lemma_rest_after_len(rb, k as nat);
            }
            let oa = ca.take(k);
            let ob = cb.take(k);
            let ghost x = transform_ops(ca.rest(), cb.rest()).0;
            let ghost y = transform_ops(ca.rest(), cb.rest()).1;
            match (oa, ob) {
                (Operation::Retain(_, a), Operation::Retain(_, b)) => {
                    proof {
                        lemma_push_all_cons(accx, Op::Retain(k as nat), x);
                        lemma_push_all_cons(accy, Op::Retain(k as nat), y);
                    }
                    xa.retain(k, a);
                    yb.retain(k, b);
                },
                (Operation::Delete(_), Operation::Retain(_, _)) => {
                    proof {
                        lemma_push_all_cons(accx, Op::Delete(k as nat), x);
                    }
                    xa.delete(k);
                },
                (Operation::Retain(_, _), Operation::Delete(_)) => {
                    proof {
                        lemma_push_all_cons(accy, Op::Delete(k as nat), y);
                    }
                    yb.delete(k);
                },
                _ => {},
            }
        }
    }

    /// Runs the delta over `doc`. The document must have the delta's base
    /// length; a document of another length is refused.
    pub fn apply(&self, doc: &str) -> (r: Result<String, ErrorCode>)
        ensures
            r is Ok <==> doc@.len() == base_len(self@),
            r matches Err(e) ==> e == ErrorCode::MalformedDelta,
            r matches Ok(s) ==> s@ == apply(self@, doc@),
    {
        proof {
            use_type_invariant(self);
        }
        let n = doc.unicode_len();
        if n != self.base_len {
            return Err(ErrorCode::MalformedDelta);
        }
        let mut out = String::new();
        let mut pos: usize = 0;
        let mut i: usize = 0;
        proof {
            assert(self@.skip(0) =~= self@);
            assert(doc@.skip(0) =~= doc@);
            assert(out@ + apply(self@, doc@) =~= apply(self@, doc@));
        }
        while i < self.ops.len()
            invariant
                i <= self.ops@.len(),
                n == doc@.len(),
                pos + base_len(self@.skip(i as int)) == n,
                out@ + apply(self@.skip(i as int), doc@.skip(pos as int)) == apply(self@, doc@),
            decreases self.ops@.len() - i,
        {
            let ghost rest = self@.skip(i as int);
            let ghost tail = doc@.skip(pos as int);
            let ghost before = out@;
            proof {
                assert(rest[0] == self.ops@[i as int]@);
                assert(rest.skip(1) =~= self@.skip(i + 1));
            }
            match &self.ops[i] {
                Operation::Insert(s, _) => {
                    out.append(s.as_str());
                    proof {
                        assert((before + s@) + apply(rest.skip(1), tail) =~= before + (s@ + apply(
                            rest.skip(1),
                            tail,
                        )));
                    }
                },
                Operation::Retain(k, _) => {
                    let part = doc.substring_char(pos, pos + *k);
                    out.append(part);
                    proof {
                        assert(tail.take(*k as int) =~= doc@.subrange(pos as int, pos + *k));
                        assert(tail.skip(*k as int) =~= doc@.skip(pos + *k));
                        assert((before + part@) + apply(rest.skip(1), tail.skip(*k as int)) =~= before
                            + (tail.take(*k as int) + apply(rest.skip(1), tail.skip(*k as int))));
                    }
                    pos = pos + *k;
                },
                Operation::Delete(k) => {
                    proof {
                        assert(tail.skip(*k as int) =~= doc@.skip(pos + *k));
                    }
                    pos = pos + *k;
                },
            }
            i = i + 1;
        }
        proof {
            assert(self@.skip(i as int).len() == 0);
            assert(out@ + Seq::<char>::empty() =~= out@);
        }
        Ok(out)
    }

    /// Composes this delta with one that applies to its result: the delta
    /// that does at once what `self` and then `other` do. It is refused
    /// where `other` does not apply to what `self` produces.
    pub fn compose(&self, other: &Delta) -> (r: Result<Delta, ErrorCode>)
        ensures
            r is Ok <==> target_len(self@) == base_len(other@),
            r matches Err(e) ==> e == ErrorCode::MalformedDelta,
            r matches Ok(d) ==> {
                &&& d@ == normalize(compose_ops(self@, other@))
                &&& base_len(d@) == base_len(self@)
                &&& target_len(d@) == target_len(other@)
                &&& forall|doc: Seq<char>|
                    doc.len() == base_len(self@) ==> #[trigger] apply(d@, doc) == apply(
                        other@,
                        apply(self@, doc),
                    )
            },
    {
        proof {
            use_type_invariant(self);
            use_type_invariant(other);
        }
        if self.target_len != other.base_len {
            return Err(ErrorCode::MalformedDelta);
        }
        let mut out = Delta::new();
        let mut ca = Cursor::new(&self.ops);
        let mut cb = Cursor::new(&other.ops);
        while !ca.done() || !cb.done()
            invariant
                ca.wf(),
                cb.wf(),
                target_len(ca.rest()) == base_len(cb.rest()),
                push_all(out@, compose_ops(ca.rest(), cb.rest())) == normalize(
                    compose_ops(self@, other@),
                ),
                base_len(out@) + base_len(ca.rest()) == base_len(self@),
                target_len(out@) + target_len(cb.rest()) == target_len(other@),
                base_len(self@) <= usize::MAX,
                target_len(other@) <= usize::MAX,
            decreases ca.ops_left() + cb.ops_left(),
        {
            Self::compose_step(&mut out, &mut ca, &mut cb);
        }
        proof {
            assert(compose_ops(ca.rest(), cb.rest()) =~= Seq::<Op>::empty());
        }
        proof {
            let c = compose_ops(self@, other@);
            lemma_normalize(c);
            assert forall|doc: Seq<char>| doc.len() == base_len(self@) implies #[trigger] apply(
                out@,
                doc,
            ) == apply(other@, apply(self@, doc)) by {
                lemma_compose_apply(self@, other@, doc);
            }
        }
        Ok(out)
    }

    /// Transforms two concurrent deltas on the same base document into the
    /// pair `(a', b')` with which both orders meet: `self` then `b'` equals
    /// `other` then `a'`. Where both insert at one position, the text of
    /// `self` comes first. The pair is refused where the base lengths differ
    /// or the merged document would be longer than the machine can count.
    pub fn transform(&self, other: &Delta) -> (r: Result<(Delta, Delta), ErrorCode>)
        ensures
            r is Ok <==> base_len(self@) == base_len(other@) && target_len(self@) + target_len(
                other@,
            ) <= usize::MAX,
            r matches Err(e) ==> e == ErrorCode::MalformedDelta,
            r matches Ok(pair) ==> {
                &&& pair.0@ == normalize(transform_ops(self@, other@).0)
                &&& pair.1@ == normalize(transform_ops(self@, other@).1)
                &&& base_len(pair.0@) == target_len(other@)
                &&& base_len(pair.1@) == target_len(self@)
                &&& target_len(pair.0@) == target_len(pair.1@)
                &&& forall|doc: Seq<char>|
                    doc.len() == base_len(self@) ==> #[trigger] apply(pair.1@, apply(self@, doc))
                        == apply(pair.0@, apply(other@, doc))
            },
    {
        proof {
            use_type_invariant(self);
            use_type_invariant(other);
        }
        if self.base_len != other.base_len {
            return Err(ErrorCode::MalformedDelta);
        }
        if self.target_len > usize::MAX - other.target_len {
            return Err(ErrorCode::MalformedDelta);
        }
        let mut xa = Delta::new();
        let mut yb = Delta::new();
        let mut ca = Cursor::new(&self.ops);
        let mut cb = Cursor::new(&other.ops);
        while !ca.done() || !cb.done()
            invariant
                ca.wf(),
                cb.wf(),
                base_len(ca.rest()) == base_len(cb.rest()),
                target_len(self@) + target_len(other@) <= usize::MAX,
                push_all(xa@, transform_ops(ca.rest(), cb.rest()).0) == normalize(
                    transform_ops(self@, other@).0,
                ),
                push_all(yb@, transform_ops(ca.rest(), cb.rest()).1) == normalize(
                    transform_ops(self@, other@).1,
                ),
                base_len(xa@) + target_len(cb.rest()) == target_len(other@),
                base_len(yb@) + target_len(ca.rest()) == target_len(self@),
                target_len(xa@) == target_len(yb@),
                target_len(xa@) + target_len(ca.rest()) + target_len(cb.rest()) <= target_len(
                    self@,
                ) + target_len(other@),
            decreases ca.ops_left() + cb.ops_left(),
        {
            Self::transform_step(&mut xa, &mut yb, &mut ca, &mut cb);
        }
        proof {
            assert(transform_ops(ca.rest(), cb.rest()).0 =~= Seq::<Op>::empty());
            assert(transform_ops(ca.rest(), cb.rest()).1 =~= Seq::<Op>::empty());
        }
        proof {
            let t = transform_ops(self@, other@);
            lemma_normalize(t.0);
            lemma_normalize(t.1);
            assert forall|doc: Seq<char>| doc.len() == base_len(self@) implies #[trigger] apply(
                yb@,
                apply(self@, doc),
            ) == apply(xa@, apply(other@, doc)) by {
                lemma_transform_converges(self@, other@, doc);
                lemma_apply_len(self@, doc);
                lemma_apply_len(other@, doc);
            }
        }
        Ok((xa, yb))
    }
}

} // verus!
