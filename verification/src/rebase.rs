//! Chains of deltas, and rebasing a chain of local deltas onto a remote one.

use crate::op::Op;
use crate::semantics::{apply, base_len, normalize, target_len};
use crate::semantics_proofs::{lemma_apply_len, lemma_normalize};
use crate::transform::{lemma_transform_converges, transform_ops};
use vstd::prelude::*;

verus! {

/// The text after the deltas of `ls` in order.
pub open spec fn apply_all(ls: Seq<Seq<Op>>, text: Seq<char>) -> Seq<char>
    decreases ls.len(),
{
    if ls.len() == 0 {
        text
    } else {
        apply_all(ls.skip(1), apply(ls[0], text))
    }
}

/// Whether the deltas of `ls` fit one after the other, the first on a text
/// of `len` characters.
pub open spec fn chain(ls: Seq<Seq<Op>>, len: nat) -> bool
    decreases ls.len(),
{
    if ls.len() == 0 {
        true
    } else {
        base_len(ls[0]) == len && chain(ls.skip(1), target_len(ls[0]))
    }
}

/// The length of the text after a chain that starts on `len` characters.
pub open spec fn chain_end(ls: Seq<Seq<Op>>, len: nat) -> nat {
    if ls.len() == 0 {
        len
    } else {
        target_len(ls.last())
    }
}

/// The canonical pair of `transform_ops`: the local delta has priority.
pub open spec fn transformed(local: Seq<Op>, remote: Seq<Op>) -> (Seq<Op>, Seq<Op>) {
    (normalize(transform_ops(local, remote).0), normalize(transform_ops(local, remote).1))
}

/// The local deltas of `ls`, each transformed against the remote delta as
/// the ones before it have left it, and the remote delta as the whole chain
/// leaves it.
pub open spec fn rebase(ls: Seq<Seq<Op>>, remote: Seq<Op>) -> (Seq<Seq<Op>>, Seq<Op>)
    decreases ls.len(),
{
    if ls.len() == 0 {
        (Seq::empty(), remote)
    } else {
        let (l1, r1) = transformed(ls[0], remote);
        let (rest, last) = rebase(ls.skip(1), r1);
        (seq![l1] + rest, last)
    }
}

/// Whether every merged document in a rebase is short enough for the machine
/// to count.
pub open spec fn rebase_fits(ls: Seq<Seq<Op>>, remote: Seq<Op>) -> bool
    decreases ls.len(),
{
    if ls.len() == 0 {
        true
    } else {
        target_len(ls[0]) + target_len(remote) <= usize::MAX && rebase_fits(
            ls.skip(1),
            transformed(ls[0], remote).1,
        )
    }
}

/// The text after a chain has the chain's end length.
pub proof fn lemma_chain_len(ls: Seq<Seq<Op>>, text: Seq<char>)
    requires
        chain(ls, text.len()),
    ensures
        apply_all(ls, text).len() == chain_end(ls, text.len()),
    decreases ls.len(),
{
    if ls.len() > 0 {
        let t1 = apply(ls[0], text);
        lemma_apply_len(ls[0], text);
        lemma_chain_len(ls.skip(1), t1);
        if ls.len() > 1 {
            assert(ls.skip(1).last() == ls.last());
        }
    }
}

/// The first deltas of a chain are a chain.
pub proof fn lemma_chain_take(ls: Seq<Seq<Op>>, len: nat, n: int)
    requires
        chain(ls, len),
        0 <= n <= ls.len(),
    ensures
        chain(ls.take(n), len),
    decreases ls.len(),
{
    if n > 0 {
        let head = ls.take(n);
        assert(head[0] == ls[0]);
        assert(head.skip(1) =~= ls.skip(1).take(n - 1));
        lemma_chain_take(ls.skip(1), target_len(ls[0]), n - 1);
    }
}

/// One more delta at the end of a chain.
pub proof fn lemma_chain_push(ls: Seq<Seq<Op>>, l: Seq<Op>, text: Seq<char>)
    requires
        chain(ls, text.len()),
    ensures
        chain(ls.push(l), text.len()) == (base_len(l) == chain_end(ls, text.len())),
        apply_all(ls.push(l), text) == apply(l, apply_all(ls, text)),
    decreases ls.len(),
{
    let all = ls.push(l);
    if ls.len() == 0 {
        assert(all.skip(1) =~= Seq::<Seq<Op>>::empty());
        assert(all[0] == l);
        assert(apply_all(all.skip(1), apply(l, text)) == apply(l, text));
        assert(chain(all.skip(1), target_len(l)));
    } else {
        let t1 = apply(ls[0], text);
        lemma_apply_len(ls[0], text);
        assert(all[0] == ls[0]);
        assert(all.skip(1) =~= ls.skip(1).push(l));
        lemma_chain_push(ls.skip(1), l, t1);
        if ls.len() > 1 {
            assert(ls.skip(1).last() == ls.last());
        }
        assert(chain(all, text.len()) == chain(all.skip(1), target_len(ls[0])));
        assert(chain_end(ls.skip(1), t1.len()) == chain_end(ls, text.len()));
    }
}

/// Without its first delta a chain goes on from the text after that delta.
pub proof fn lemma_chain_skip(ls: Seq<Seq<Op>>, text: Seq<char>)
    requires
        ls.len() > 0,
        chain(ls, text.len()),
    ensures
        chain(ls.skip(1), apply(ls[0], text).len()),
        apply_all(ls.skip(1), apply(ls[0], text)) == apply_all(ls, text),
        chain_end(ls.skip(1), apply(ls[0], text).len()) == chain_end(ls, text.len()),
{
    lemma_apply_len(ls[0], text);
    if ls.len() > 1 {
        assert(ls.skip(1).last() == ls.last());
    }
}

/// A rebased chain has as many deltas as the chain.
pub proof fn lemma_rebase_len(ls: Seq<Seq<Op>>, remote: Seq<Op>)
    ensures
        rebase(ls, remote).0.len() == ls.len(),
    decreases ls.len(),
{
    if ls.len() > 0 {
        lemma_rebase_len(ls.skip(1), transformed(ls[0], remote).1);
    }
}

/// Rebase law: where the local chain and the remote delta start on the same
/// text, the rebased chain fits the text that the remote delta gives, the
/// remote delta as the chain leaves it fits the text that the chain gives,
/// and both ways end in the same text.
pub proof fn lemma_rebase_converges(ls: Seq<Seq<Op>>, remote: Seq<Op>, text: Seq<char>)
    requires
        chain(ls, text.len()),
        base_len(remote) == text.len(),
    ensures
        rebase(ls, remote).0.len() == ls.len(),
        chain(rebase(ls, remote).0, target_len(remote)),
        base_len(rebase(ls, remote).1) == chain_end(ls, text.len()),
        target_len(rebase(ls, remote).1) == chain_end(rebase(ls, remote).0, target_len(remote)),
        apply(rebase(ls, remote).1, apply_all(ls, text)) == apply_all(
            rebase(ls, remote).0,
            apply(remote, text),
        ),
    decreases ls.len(),
{
    lemma_apply_len(remote, text);
    if ls.len() > 0 {
        let l = ls[0];
        let t = transform_ops(l, remote);
        let (l1, r1) = transformed(l, remote);
        let (rest, last) = rebase(ls.skip(1), r1);
        let after_l = apply(l, text);
        let after_r = apply(remote, text);
        lemma_transform_converges(l, remote, text);
        lemma_normalize(t.0);
        lemma_normalize(t.1);
        lemma_apply_len(l, text);
        lemma_rebase_converges(ls.skip(1), r1, after_l);
        let out = seq![l1] + rest;
        assert(out[0] == l1);
        assert(out.skip(1) =~= rest);
        // local then remote' is remote then local'
        assert(apply(r1, after_l) == apply(l1, after_r));
        lemma_apply_len(l1, after_r);
        if ls.len() > 1 {
            assert(ls.skip(1).last() == ls.last());
        }
        if rest.len() > 0 {
            assert(out.last() == rest.last());
        }
    }
}

} // verus!
