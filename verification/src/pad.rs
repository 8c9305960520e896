//! The pad: the document as it stands after the revisions applied so far.

use crate::checksum::{checksum, checksum_of};
use crate::codec::parse;
use crate::delta::Delta;
use crate::errors::ErrorCode;
use crate::revision::{revisions_view, Revision, RevisionModel};
use crate::semantics::{apply, base_len};
use vstd::prelude::*;
use vstd::utf8::{decode_utf8, encode_utf8, valid_utf8};

verus! {

/// The model of a pad: its text and the id of the last revision in it.
pub struct PadModel {
    pub text: Seq<char>,
    pub rev_id: u64,
}

impl PadModel {
    /// The pad before any revision.
    pub open spec fn empty() -> PadModel {
        PadModel { text: Seq::empty(), rev_id: 0 }
    }

    /// The serialized state: the text in UTF-8.
    pub open spec fn snapshot(self) -> Seq<u8> {
        encode_utf8(self.text)
    }

    /// The checksum of the serialized state.
    pub open spec fn checksum(self) -> Seq<char> {
        checksum(self.snapshot())
    }
}

/// The pad after `rev`, or why `rev` does not apply.
///
/// A revision whose id the pad has reached is skipped. Any other must start
/// from the pad's revision, hold a delta that fits the pad's text, and carry
/// the checksum of the state it leads to.
pub open spec fn apply_revision(pad: PadModel, rev: RevisionModel) -> Result<PadModel, ErrorCode> {
    if rev.rev_id <= pad.rev_id {
        Ok(pad)
    } else if rev.base_rev_id != pad.rev_id {
        Err(ErrorCode::OutOfOrder)
    } else {
        match parse(rev.delta_bytes) {
            None => Err(ErrorCode::MalformedDelta),
            Some(ops) => {
                let next = PadModel { text: apply(ops, pad.text), rev_id: rev.rev_id };
                if base_len(ops) != pad.text.len() {
                    Err(ErrorCode::MalformedDelta)
                } else if next.checksum() != rev.checksum {
                    Err(ErrorCode::Divergence)
                } else {
                    Ok(next)
                }
            },
        }
    }
}

/// The pad after the revisions of `log` in order, starting from `start`; the
/// first revision that does not apply gives the error.
pub open spec fn replay_from(start: PadModel, log: Seq<RevisionModel>) -> Result<
    PadModel,
    ErrorCode,
>
    decreases log.len(),
{
    if log.len() == 0 {
        Ok(start)
    } else {
        match replay_from(start, log.drop_last()) {
            Ok(pad) => apply_revision(pad, log.last()),
            Err(e) => Err(e),
        }
    }
}

/// The pad rebuilt from scratch out of a revision log.
pub open spec fn replay(log: Seq<RevisionModel>) -> Result<PadModel, ErrorCode> {
    replay_from(PadModel::empty(), log)
}

/// An error in a part of the log is the error of the whole.
pub proof fn lemma_replay_error(start: PadModel, log: Seq<RevisionModel>, n: int)
    requires
        0 <= n <= log.len(),
        replay_from(start, log.take(n)) is Err,
    ensures
        replay_from(start, log) == replay_from(start, log.take(n)),
    decreases log.len() - n,
{
    if n < log.len() {
        assert(log.take(n + 1).drop_last() =~= log.take(n));
        lemma_replay_error(start, log, n + 1);
    } else {
        assert(log.take(n) =~= log);
    }
}

/// Replay law: a pad that holds a log, after two more revisions of which the
/// second starts where the first ends, is the pad rebuilt from the log with
/// both appended.
pub proof fn lemma_apply_then_replay(
    log: Seq<RevisionModel>,
    pad: PadModel,
    r1: RevisionModel,
    r2: RevisionModel,
)
    requires
        replay(log) == Ok::<PadModel, ErrorCode>(pad),
        r2.base_rev_id == r1.rev_id,
        apply_revision(pad, r1) is Ok,
        apply_revision(apply_revision(pad, r1)->Ok_0, r2) is Ok,
    ensures
        replay(log.push(r1).push(r2)) == apply_revision(apply_revision(pad, r1)->Ok_0, r2),
{
    let l1 = log.push(r1);
    let l2 = l1.push(r2);
    assert(l1.drop_last() =~= log);
    assert(l2.drop_last() =~= l1);
    assert(replay(l1) == apply_revision(pad, r1));
    assert(replay(l2) == apply_revision(replay(l1)->Ok_0, r2));
}

/// Idempotence: a revision whose id the pad has reached leaves it as it is.
pub proof fn lemma_reapply_is_noop(pad: PadModel, rev: RevisionModel)
    requires
        rev.rev_id <= pad.rev_id,
    ensures
        apply_revision(pad, rev) == Ok::<PadModel, ErrorCode>(pad),
{
}

/// Snapshot law: a snapshot is valid UTF-8 and holds the text it was taken of.
pub proof fn lemma_snapshot_round_trip(pad: PadModel)
    ensures
        valid_utf8(pad.snapshot()),
        decode_utf8(pad.snapshot()) == pad.text,
{
    vstd::utf8::encode_utf8_valid_utf8(pad.text);
    vstd::utf8::encode_utf8_decode_utf8(pad.text);
}

/// The document of one object, with the id of the last revision applied.
#[derive(Debug, PartialEq, Eq)]
pub struct Pad {
    text: String,
    rev_id: u64,
}

impl View for Pad {
    type V = PadModel;

    closed spec fn view(&self) -> PadModel {
        PadModel { text: self.text@, rev_id: self.rev_id }
    }
}

impl Pad {
    /// The empty pad, before any revision.
    pub fn new() -> (pad: Self)
        ensures
            pad@ == PadModel::empty(),
    {
        Pad { text: String::new(), rev_id: 0 }
    }

    /// A pad of the given text at the given revision.
    pub(crate) fn from_parts(text: String, rev_id: u64) -> (pad: Self)
        ensures
            pad@ == (PadModel { text: text@, rev_id }),
    {
        Pad { text, rev_id }
    }

    /// The id of the last revision applied.
    pub fn rev_id(&self) -> (id: u64)
        ensures
            id == self@.rev_id,
    {
        self.rev_id
    }

    /// The document.
    pub fn text(&self) -> (text: &str)
        ensures
            text@ == self@.text,
    {
        self.text.as_str()
    }

    /// The serialized state: the document in UTF-8.
    pub fn snapshot(&self) -> (bytes: Vec<u8>)
        ensures
            bytes@ == self@.snapshot(),
    {
        self.text.as_str().as_bytes_vec()
    }

    /// The checksum of the serialized state.
    pub fn checksum(&self) -> (sum: String)
        ensures
            sum@ == self@.checksum(),
    {
        checksum_of(self.text.as_str().as_bytes())
    }

    /// Rebuilds a pad at revision `rev_id` from a snapshot. Bytes that are
    /// not UTF-8 are refused.
    pub fn from_snapshot(bytes: &[u8], rev_id: u64) -> (r: Result<Self, ErrorCode>)
        ensures
            r is Ok <==> valid_utf8(bytes@),
            r matches Err(e) ==> e == ErrorCode::MalformedDelta,
            r matches Ok(pad) ==> pad@ == (PadModel { text: decode_utf8(bytes@), rev_id }),
    {
        match crate::codec::utf8_text(bytes) {
            Some(s) => Ok(Pad { text: s.to_owned(), rev_id }),
            None => Err(ErrorCode::MalformedDelta),
        }
    }

    /// Puts a delta onto the document without counting a revision: the new
    /// text, or `MalformedDelta` where the delta does not fit the document.
    pub(crate) fn preview(&self, delta: &Delta) -> (r: Result<String, ErrorCode>)
        ensures
            r is Ok <==> base_len(delta@) == self@.text.len(),
            r matches Err(e) ==> e == ErrorCode::MalformedDelta,
            r matches Ok(text) ==> text@ == apply(delta@, self@.text),
    {
        delta.apply(self.text.as_str())
    }

    /// Replaces the document and the revision id.
    pub(crate) fn set(&mut self, text: String, rev_id: u64)
        ensures
            final(self)@ == (PadModel { text: text@, rev_id }),
    {
        self.text = text;
        self.rev_id = rev_id;
    }

    /// Applies a revision to the pad, as `apply_revision` says. A revision
    /// that was applied before is skipped without error; on an error the pad
    /// stays as it was.
    pub fn apply_remote(&mut self, revision: &Revision) -> (r: Result<(), ErrorCode>)
        ensures
            match apply_revision(old(self)@, revision@) {
                Ok(next) => r is Ok && final(self)@ == next,
                Err(e) => r == Err::<(), ErrorCode>(e) && final(self)@ == old(self)@,
            },
    {
        if revision.rev_id <= self.rev_id {
            return Ok(());
        }
        if revision.base_rev_id != self.rev_id {
            return Err(ErrorCode::OutOfOrder);
        }
        let delta = match Delta::from_bytes(revision.delta_bytes.as_slice()) {
            Ok(d) => d,
            Err(e) => {
                return Err(e);
            },
        };
        let text = match delta.apply(self.text.as_str()) {
            Ok(t) => t,
            Err(e) => {
                return Err(e);
            },
        };
        let sum = checksum_of(text.as_str().as_bytes());
        if sum != revision.checksum {
            return Err(ErrorCode::Divergence);
        }
        self.text = text;
        self.rev_id = revision.rev_id;
        Ok(())
    }

    /// Rebuilds a pad from scratch by applying the revisions in order.
    pub fn from_revisions(revisions: &Vec<Revision>) -> (r: Result<Self, ErrorCode>)
        ensures
            match replay(revisions_view(revisions@)) {
                Ok(pad) => r matches Ok(p) && p@ == pad,
                Err(e) => r matches Err(f) && f == e,
            },
    {
        let ghost log = revisions_view(revisions@);
        let mut pad = Pad::new();
        let mut i: usize = 0;
        proof {
            assert(log.take(0) =~= Seq::<RevisionModel>::empty());
        }
        while i < revisions.len()
            invariant
                i <= revisions@.len(),
                log == revisions_view(revisions@),
                replay_from(PadModel::empty(), log.take(i as int)) == Ok::<PadModel, ErrorCode>(
                    pad@,
                ),
            decreases revisions@.len() - i,
        {
            proof {
                assert(log.take(i + 1).drop_last() =~= log.take(i as int));
                assert(log.take(i + 1).last() == revisions@[i as int]@);
            }
            match pad.apply_remote(&revisions[i]) {
                Ok(()) => {},
                Err(e) => {
                    proof {
                        lemma_replay_error(PadModel::empty(), log, i + 1);
                    }
                    return Err(e);
                },
            }
            i = i + 1;
        }
        proof {
            assert(log.take(i as int) =~= log);
        }
        Ok(pad)
    }
}

} // verus!
