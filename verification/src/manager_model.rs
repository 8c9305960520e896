//! The model of the revision manager: its state as plain values, what makes
//! it well formed, and when a pad belongs to it.

use crate::cache::gapless;
use crate::checksum::checksum;
use crate::codec::{encode, parse};
use crate::errors::ErrorCode;
use crate::op::Op;
use crate::pad::{apply_revision, replay, PadModel};
use crate::rebase::{
    apply_all, chain, chain_end, lemma_chain_len, lemma_chain_push, rebase, rebase_fits,
};
use crate::revision::RevisionModel;
use crate::semantics::{apply, base_len};
use vstd::prelude::*;
use vstd::utf8::encode_utf8;

verus! {

/// The states of a session, as its users see them.
#[derive(Clone, Copy, Debug, PartialEq, Eq, Structural)]
pub enum SyncState {
    /// Nothing was loaded yet.
    Uninitialized,
    /// The history is being read.
    Loading,
    /// Nothing is waiting to be reconciled.
    Synced,
    /// Revisions wait behind a gap, or local revisions were rebased and are
    /// not acknowledged yet.
    Conflicted,
    /// The state does not match the server's; only a resync helps.
    Diverged,
}

/// Where the manager stands in its life.
#[derive(Clone, Copy, Debug, PartialEq, Eq, Structural)]
pub enum Phase {
    Uninitialized,
    Loading,
    Ready,
    Diverged,
}

/// How many revisions may arrive ahead of a gap before the session counts as
/// diverged.
pub const GAP_RETRY_BUDGET: usize = 32;

/// The model of a local revision that waits for its acknowledgment.
pub struct PendingModel {
    pub revision: RevisionModel,
    pub delta: Seq<Op>,
}

/// The deltas of pending revisions, in their order.
pub open spec fn deltas_of(pending: Seq<PendingModel>) -> Seq<Seq<Op>> {
    pending.map_values(|p: PendingModel| p.delta)
}

/// The model of the revision manager.
pub struct ManagerModel {
    pub object_id: Seq<char>,
    pub user_id: Seq<char>,
    pub phase: Phase,
    /// Whether local revisions were rebased and are not all acknowledged.
    pub rebased: bool,
    /// The next revision id to hand out as a base.
    pub counter: u64,
    /// The log of the revisions applied here, in the order applied.
    pub log: Seq<RevisionModel>,
    /// The state that the server has confirmed.
    pub base: PadModel,
    /// The local revisions that the server has not acknowledged, oldest first.
    pub pending: Seq<PendingModel>,
    /// Remote revisions that arrived ahead of a gap.
    pub buffered: Seq<RevisionModel>,
    /// How many revisions arrived ahead of a gap since the last progress.
    pub gap_retries: usize,
}

impl ManagerModel {
    /// The manager of no object: nothing is loaded, logged, pending or
    /// buffered, and no id was handed out.
    pub open spec fn blank() -> ManagerModel {
        ManagerModel {
            object_id: Seq::empty(),
            user_id: Seq::empty(),
            phase: Phase::Uninitialized,
            rebased: false,
            counter: 0,
            log: Seq::empty(),
            base: PadModel::empty(),
            pending: Seq::empty(),
            buffered: Seq::empty(),
            gap_retries: 0,
        }
    }

    /// The deltas of the pending revisions.
    pub open spec fn deltas(self) -> Seq<Seq<Op>> {
        deltas_of(self.pending)
    }

    /// The revisions of the pending queue.
    pub open spec fn pending_revisions(self) -> Seq<RevisionModel> {
        self.pending.map_values(|p: PendingModel| p.revision)
    }

    /// The last known revision id: the confirmed one and the pending ones.
    pub open spec fn known(self) -> int {
        self.base.rev_id + self.pending.len()
    }

    /// The length of the document with the pending revisions in it.
    pub open spec fn head_len(self) -> nat {
        chain_end(self.deltas(), self.base.text.len())
    }

    /// The document with the pending revisions in it.
    pub open spec fn head_text(self) -> Seq<char> {
        apply_all(self.deltas(), self.base.text)
    }

    /// The state of the session.
    pub open spec fn state(self) -> SyncState {
        match self.phase {
            Phase::Uninitialized => SyncState::Uninitialized,
            Phase::Loading => SyncState::Loading,
            Phase::Diverged => SyncState::Diverged,
            Phase::Ready => if self.buffered.len() > 0 || self.rebased {
                SyncState::Conflicted
            } else {
                SyncState::Synced
            },
        }
    }

    /// Whether the session takes edits and revisions.
    pub open spec fn is_ready(self) -> bool {
        self.phase == Phase::Ready
    }

    /// The pending revisions are numbered after the confirmed revision and
    /// hold their deltas.
    pub open spec fn pending_numbered(self) -> bool {
        forall|i: int|
            0 <= i < self.pending.len() ==> pending_ok(#[trigger] self.pending[i], self.base.rev_id, i)
    }

    /// The log has no gaps and ends at the last known revision, the pending
    /// revisions are numbered from the confirmed one on and fit one after
    /// the other, and before loading nothing is held.
    pub open spec fn wf(self) -> bool {
        &&& gapless(self.log)
        &&& self.known() <= self.counter
        &&& self.pending_numbered()
        &&& chain(self.deltas(), self.base.text.len())
        &&& self.pending.len() == 0 ==> !self.rebased
        &&& match self.phase {
            Phase::Ready => self.log.len() == self.known(),
            Phase::Diverged => self.log.len() == self.known(),
            _ => {
                &&& self.pending.len() == 0
                &&& self.buffered.len() == 0
                &&& self.base == PadModel::empty()
                &&& self.gap_retries == 0
            },
        }
    }

    /// The pad belongs to the manager: it stands at the last known revision,
    /// it is what replaying the log gives, and its text is the confirmed
    /// text with the pending revisions in it.
    pub open spec fn tracks(self, pad: PadModel) -> bool {
        &&& self.phase == Phase::Ready || self.phase == Phase::Diverged
        &&& pad.rev_id == self.known()
        &&& pad.text == self.head_text()
        &&& replay(self.log) == Ok::<PadModel, ErrorCode>(pad)
    }
}

/// A pending revision at place `i` after the confirmed revision `acked` is
/// numbered `acked + i + 1`, follows the one before it, and holds its delta.
pub open spec fn pending_ok(p: PendingModel, acked: u64, i: int) -> bool {
    &&& p.revision.base_rev_id == acked + i
    &&& p.revision.rev_id == acked + i + 1
    &&& parse(p.revision.delta_bytes) == Some(p.delta)
}

/// The revision that a local delta becomes: it follows the last known
/// revision and carries the checksum of the text it leads to.
pub open spec fn local_revision(
    m: ManagerModel,
    delta: Seq<Op>,
    text: Seq<char>,
) -> RevisionModel {
    RevisionModel {
        object_id: m.object_id,
        base_rev_id: m.known() as u64,
        rev_id: (m.known() + 1) as u64,
        delta_bytes: encode(delta),
        author_id: m.user_id,
        checksum: checksum(encode_utf8(apply(delta, text))),
    }
}

/// The pending revisions after a rebase onto a remote revision `rev_id`:
/// entry `i` holds the rebased delta `ls[i]`, is numbered after `rev_id`, and
/// carries the checksum of the text it leads to from `text`.
pub open spec fn rebased_pending(
    old_pending: Seq<PendingModel>,
    ls: Seq<Seq<Op>>,
    text: Seq<char>,
    rev_id: u64,
) -> Seq<PendingModel> {
    Seq::new(
        old_pending.len(),
        |i: int|
            PendingModel {
                revision: RevisionModel {
                    object_id: old_pending[i].revision.object_id,
                    base_rev_id: (rev_id + i) as u64,
                    rev_id: (rev_id + i + 1) as u64,
                    delta_bytes: encode(ls[i]),
                    author_id: old_pending[i].revision.author_id,
                    checksum: checksum(encode_utf8(apply_all(ls.take(i + 1), text))),
                },
                delta: ls[i],
            },
    )
}

/// Why a local revision is refused, if it is. The checks come in this
/// order: the session must be ready, the revision must start at the last
/// known revision and follow it directly, and its delta must decode and fit
/// the document.
pub open spec fn add_local_error(m: ManagerModel, rev: RevisionModel) -> Option<ErrorCode> {
    if m.phase == Phase::Diverged {
        Some(ErrorCode::Divergence)
    } else if m.phase != Phase::Ready {
        Some(ErrorCode::OutOfOrder)
    } else if rev.base_rev_id != m.known() {
        Some(ErrorCode::Conflict)
    } else if !rev.is_step() {
        Some(ErrorCode::OutOfOrder)
    } else if parse(rev.delta_bytes) is None || base_len(parse(rev.delta_bytes)->0)
        != m.head_len() {
        Some(ErrorCode::MalformedDelta)
    } else {
        None
    }
}

/// The manager after a local revision was offered. An accepted revision
/// joins the pending queue and the log. A conflict sets the counter back to
/// the last known revision, so that the next pair handed out is current.
pub open spec fn add_local_next(m: ManagerModel, rev: RevisionModel) -> ManagerModel {
    match add_local_error(m, rev) {
        None => ManagerModel {
            pending: m.pending.push(
                PendingModel { revision: rev, delta: parse(rev.delta_bytes)->0 },
            ),
            log: m.log.push(rev),
            counter: if m.counter < rev.rev_id {
                rev.rev_id
            } else {
                m.counter
            },
            ..m
        },
        Some(e) => if e == ErrorCode::Conflict {
            ManagerModel { counter: m.known() as u64, ..m }
        } else {
            m
        },
    }
}

/// Why a local edit is refused, if it is. The checks come in this order:
/// the session must be ready, no reserved pair may be outstanding, an id
/// must be left, and the delta must fit the document.
pub open spec fn apply_local_error(m: ManagerModel, delta: Seq<Op>) -> Option<ErrorCode> {
    if m.phase == Phase::Diverged {
        Some(ErrorCode::Divergence)
    } else if m.phase != Phase::Ready {
        Some(ErrorCode::OutOfOrder)
    } else if m.counter != m.known() {
        Some(ErrorCode::Conflict)
    } else if m.known() >= u64::MAX {
        Some(ErrorCode::OutOfOrder)
    } else if base_len(delta) != m.head_len() {
        Some(ErrorCode::MalformedDelta)
    } else {
        None
    }
}

/// The manager after a local edit was offered. An edit that is taken
/// becomes the newest pending revision and the newest entry of the log. A
/// conflict sets the counter back to the last known revision.
pub open spec fn apply_local_next(m: ManagerModel, delta: Seq<Op>, text: Seq<char>) -> ManagerModel {
    match apply_local_error(m, delta) {
        Some(e) => if e == ErrorCode::Conflict {
            ManagerModel { counter: m.known() as u64, ..m }
        } else {
            m
        },
        None => {
            let rev = local_revision(m, delta, text);
            ManagerModel {
                pending: m.pending.push(PendingModel { revision: rev, delta }),
                log: m.log.push(rev),
                counter: rev.rev_id,
                ..m
            }
        },
    }
}

/// How many pending revisions an acknowledgment of `rev_id` confirms: those
/// numbered up to it.
pub open spec fn ack_count(m: ManagerModel, rev_id: u64) -> nat {
    if m.phase != Phase::Ready || rev_id <= m.base.rev_id {
        0
    } else if rev_id - m.base.rev_id >= m.pending.len() {
        m.pending.len()
    } else {
        (rev_id - m.base.rev_id) as nat
    }
}

/// The manager after the acknowledgment of `rev_id`: the confirmed
/// revisions leave the queue and their deltas go into the confirmed text.
pub open spec fn ack_next(m: ManagerModel, rev_id: u64) -> ManagerModel {
    let n = ack_count(m, rev_id);
    ManagerModel {
        base: PadModel {
            text: apply_all(m.deltas().take(n as int), m.base.text),
            rev_id: (m.base.rev_id + n) as u64,
        },
        pending: m.pending.skip(n as int),
        rebased: m.rebased && n < m.pending.len(),
        ..m
    }
}

/// The entries of a log from place `from` on, taken as pending revisions.
pub open spec fn log_pending(log: Seq<RevisionModel>, from: int) -> Seq<PendingModel> {
    Seq::new(
        (log.len() - from) as nat,
        |i: int|
            PendingModel {
                revision: log[from + i],
                delta: parse(log[from + i].delta_bytes)->0,
            },
    )
}

/// Why the server's report of its latest revision is refused, if it is. The
/// session must be ready. A report beyond the confirmed revision says
/// nothing yet. A report of the confirmed revision must carry the checksum
/// of the confirmed text. A report behind the confirmed revision means that
/// revisions were taken for confirmed which the server does not hold: then
/// no revision may be pending, and the report must carry the checksum of
/// the text that the log gives up to the reported revision.
pub open spec fn confirm_error(m: ManagerModel, rev_id: u64, sum: Seq<char>) -> Option<ErrorCode> {
    if m.phase == Phase::Diverged {
        Some(ErrorCode::Divergence)
    } else if m.phase != Phase::Ready {
        Some(ErrorCode::OutOfOrder)
    } else if rev_id > m.base.rev_id {
        None
    } else if rev_id == m.base.rev_id {
        if m.base.checksum() != sum {
            Some(ErrorCode::Divergence)
        } else {
            None
        }
    } else if m.pending.len() > 0 {
        Some(ErrorCode::Divergence)
    } else {
        match replay(m.log.take(rev_id as int)) {
            Ok(pad) => if pad.checksum() != sum {
                Some(ErrorCode::Divergence)
            } else {
                None
            },
            Err(_) => Some(ErrorCode::Divergence),
        }
    }
}

/// The manager after the server's report of its latest revision. A report
/// that is refused for divergence ends the session. A report behind the
/// confirmed revision takes the confirmation back to the reported revision:
/// the revisions of the log after it are pending again, to be sent.
pub open spec fn confirm_next(m: ManagerModel, rev_id: u64, sum: Seq<char>) -> ManagerModel {
    match confirm_error(m, rev_id, sum) {
        Some(e) => if e == ErrorCode::Divergence {
            ManagerModel { phase: Phase::Diverged, ..m }
        } else {
            m
        },
        None => if rev_id >= m.base.rev_id {
            m
        } else {
            ManagerModel {
                base: replay(m.log.take(rev_id as int))->Ok_0,
                pending: log_pending(m.log, rev_id as int),
                ..m
            }
        },
    }
}

/// A log that replays can be split at any place: its first part replays,
/// and the deltas of the rest lead on from there, one after the other, to
/// the text of the whole.
pub proof fn lemma_replay_split(log: Seq<RevisionModel>, s: int)
    requires
        gapless(log),
        replay(log) is Ok,
        0 <= s <= log.len(),
    ensures
        replay(log.take(s)) is Ok,
        replay(log.take(s))->Ok_0.rev_id == s,
        log_pending(log, s).len() == log.len() - s,
        forall|i: int|
            0 <= i < log.len() - s ==> pending_ok(#[trigger] log_pending(log, s)[i], s as u64, i),
        chain(deltas_of(log_pending(log, s)), replay(log.take(s))->Ok_0.text.len()),
        apply_all(deltas_of(log_pending(log, s)), replay(log.take(s))->Ok_0.text) == replay(
            log,
        )->Ok_0.text,
    decreases log.len(),
{
    lemma_replay_rev_id(log);
    if s == log.len() {
        assert(log.take(s) =~= log);
        assert(deltas_of(log_pending(log, s)) =~= Seq::<Seq<Op>>::empty());
    } else {
        let before = log.drop_last();
        let last = log.last();
        let n = log.len() as int;
        assert(gapless(before)) by {
            assert forall|i: int| 0 <= i < before.len() implies (#[trigger] before[i]).rev_id == i
                + 1 by {
                assert(before[i] == log[i]);
            }
        }
        assert(replay(before) is Ok);
        lemma_replay_rev_id(before);
        lemma_replay_split(before, s);
        assert(before.take(s) =~= log.take(s));
        let start = replay(log.take(s))->Ok_0;
        let mid = replay(before)->Ok_0;
        let ds0 = deltas_of(log_pending(before, s));
        let ds = deltas_of(log_pending(log, s));
        let ops = parse(last.delta_bytes)->0;
        assert(last == log[n - 1]);
        assert(apply_revision(mid, last) == replay(log));
        assert(ds =~= ds0.push(ops));
        lemma_chain_len(ds0, start.text);
        lemma_chain_push(ds0, ops, start.text);
        assert forall|i: int| 0 <= i < log.len() - s implies pending_ok(
            #[trigger] log_pending(log, s)[i],
            s as u64,
            i,
        ) by {
            if i < before.len() - s {
                assert(log_pending(log, s)[i] == log_pending(before, s)[i]);
            }
        }
    }
}

/// Whether `i` is the first buffered revision that no gap holds back any more.
pub open spec fn is_first_ready(m: ManagerModel, i: int) -> bool {
    &&& 0 <= i < m.buffered.len()
    &&& m.buffered[i].base_rev_id <= m.base.rev_id
    &&& forall|j: int| 0 <= j < i ==> (#[trigger] m.buffered[j]).base_rev_id > m.base.rev_id
}

/// Whether a revision of this id waits in the buffer.
pub open spec fn is_buffered(m: ManagerModel, rev_id: u64) -> bool {
    exists|i: int| 0 <= i < m.buffered.len() && (#[trigger] m.buffered[i]).rev_id == rev_id
}

/// Whether a remote revision is the oldest pending revision come back from
/// the server: then it acknowledges that revision.
pub open spec fn is_echo(m: ManagerModel, rev: RevisionModel) -> bool {
    m.pending.len() > 0 && m.pending[0].revision == rev
}

/// Why a remote revision is refused, if it is. The session must be ready and
/// the revision must follow its base directly. A revision up to the
/// confirmed one was received before and is skipped. One ahead of the
/// confirmed one waits in the buffer, as long as the budget lasts. One that
/// starts at the confirmed one is either the oldest pending revision come
/// back, or it must decode, fit the confirmed text, lead to the text of its
/// checksum, and leave the pending revisions countable.
pub open spec fn remote_error(m: ManagerModel, rev: RevisionModel) -> Option<ErrorCode> {
    if m.phase == Phase::Diverged {
        Some(ErrorCode::Divergence)
    } else if m.phase != Phase::Ready {
        Some(ErrorCode::OutOfOrder)
    } else if !rev.is_step() {
        Some(ErrorCode::OutOfOrder)
    } else if rev.rev_id <= m.base.rev_id {
        None
    } else if rev.base_rev_id > m.base.rev_id {
        if m.gap_retries >= GAP_RETRY_BUDGET {
            Some(ErrorCode::Divergence)
        } else {
            None
        }
    } else if is_echo(m, rev) {
        None
    } else if m.known() >= u64::MAX {
        Some(ErrorCode::OutOfOrder)
    } else {
        match parse(rev.delta_bytes) {
            None => Some(ErrorCode::MalformedDelta),
            Some(ops) => if base_len(ops) != m.base.text.len() {
                Some(ErrorCode::MalformedDelta)
            } else if checksum(encode_utf8(apply(ops, m.base.text))) != rev.checksum {
                Some(ErrorCode::Divergence)
            } else if !rebase_fits(m.deltas(), ops) {
                Some(ErrorCode::MalformedDelta)
            } else {
                None
            },
        }
    }
}

/// The revision under which a remote revision enters the log here: it holds
/// the remote delta as the pending revisions leave it, follows the last
/// known revision, and carries the checksum of the text it leads to.
pub open spec fn resolved_revision(
    m: ManagerModel,
    rev: RevisionModel,
    delta: Seq<Op>,
    text: Seq<char>,
) -> RevisionModel {
    RevisionModel {
        object_id: rev.object_id,
        base_rev_id: m.known() as u64,
        rev_id: (m.known() + 1) as u64,
        delta_bytes: encode(delta),
        author_id: rev.author_id,
        checksum: checksum(encode_utf8(text)),
    }
}

/// The manager and the pad after a remote revision was received.
///
/// A divergence ends the session. A revision ahead of a gap joins the
/// buffer, unless one of its id waits there already. The oldest pending
/// revision come back is acknowledged. Any other revision that starts at the
/// confirmed one is applied: it goes into the confirmed text, the pending
/// revisions are rebased onto it, and the pad takes the remote delta as they
/// leave it.
pub open spec fn remote_next(m: ManagerModel, pad: PadModel, rev: RevisionModel) -> (
    ManagerModel,
    PadModel,
) {
    match remote_error(m, rev) {
        Some(e) => if e == ErrorCode::Divergence {
            (ManagerModel { phase: Phase::Diverged, ..m }, pad)
        } else {
            (m, pad)
        },
        None => if rev.rev_id <= m.base.rev_id {
            (m, pad)
        } else if rev.base_rev_id > m.base.rev_id {
            (
                ManagerModel {
                    buffered: if is_buffered(m, rev.rev_id) {
                        m.buffered
                    } else {
                        m.buffered.push(rev)
                    },
                    gap_retries: (m.gap_retries + 1) as usize,
                    ..m
                },
                pad,
            )
        } else if is_echo(m, rev) {
            (ack_next(m, rev.rev_id), pad)
        } else {
            let ops = parse(rev.delta_bytes)->0;
            let (ls, last) = rebase(m.deltas(), ops);
            let base_text = apply(ops, m.base.text);
            let text = apply(last, pad.text);
            (
                ManagerModel {
                    base: PadModel { text: base_text, rev_id: rev.rev_id },
                    pending: rebased_pending(m.pending, ls, base_text, rev.rev_id),
                    log: m.log.push(resolved_revision(m, rev, last, text)),
                    rebased: m.pending.len() > 0,
                    counter: if m.counter <= m.known() {
                        (m.known() + 1) as u64
                    } else {
                        m.counter
                    },
                    gap_retries: 0,
                    ..m
                },
                PadModel { text, rev_id: (m.known() + 1) as u64 },
            )
        },
    }
}

/// Whether some buffered revision is held back by no gap.
pub open spec fn has_ready(m: ManagerModel) -> bool {
    exists|i: int| is_first_ready(m, i)
}

/// The place of the first buffered revision that no gap holds back.
pub open spec fn first_ready(m: ManagerModel) -> int {
    choose|i: int| is_first_ready(m, i)
}

/// There is one first ready revision at most.
pub proof fn lemma_first_ready_unique(m: ManagerModel, i: int)
    requires
        is_first_ready(m, i),
    ensures
        has_ready(m),
        first_ready(m) == i,
{
    let j = first_ready(m);
    assert(is_first_ready(m, j));
    if j < i {
        assert(m.buffered[j].base_rev_id > m.base.rev_id);
    } else if i < j {
        assert(m.buffered[i].base_rev_id > m.base.rev_id);
    }
}

/// The manager and the pad after the buffered revisions that no gap holds
/// back were received again, one after the other, for as long as there is
/// one and the session is ready; `fuel` bounds the number of steps.
pub open spec fn drained(m: ManagerModel, pad: PadModel, fuel: nat) -> (ManagerModel, PadModel)
    decreases fuel,
{
    if fuel == 0 || !m.is_ready() || !has_ready(m) {
        (m, pad)
    } else {
        let i = first_ready(m);
        let taken = ManagerModel { buffered: m.buffered.remove(i), ..m };
        let next = remote_next(taken, pad, m.buffered[i]);
        drained(next.0, next.1, (fuel - 1) as nat)
    }
}

/// Receiving buffered revisions leaves the ids of object and user alone.
pub proof fn lemma_drained_ids(m: ManagerModel, pad: PadModel, fuel: nat)
    ensures
        drained(m, pad, fuel).0.object_id == m.object_id,
        drained(m, pad, fuel).0.user_id == m.user_id,
    decreases fuel,
{
    if fuel == 0 || !m.is_ready() || !has_ready(m) {
    } else {
        let i = first_ready(m);
        let taken = ManagerModel { buffered: m.buffered.remove(i), ..m };
        let next = remote_next(taken, pad, m.buffered[i]);
        lemma_drained_ids(next.0, next.1, (fuel - 1) as nat);
    }
}

/// The history that a load replays: the log where it holds anything, else
/// what the cloud gave.
pub open spec fn load_history(m: ManagerModel, cloud: Seq<RevisionModel>) -> Seq<RevisionModel> {
    if m.log.len() > 0 {
        m.log
    } else {
        cloud
    }
}

/// A log without gaps that replays ends at its length.
pub proof fn lemma_replay_rev_id(log: Seq<RevisionModel>)
    requires
        gapless(log),
        replay(log) is Ok,
    ensures
        replay(log)->Ok_0.rev_id == log.len(),
        log.len() <= u64::MAX,
    decreases log.len(),
{
    if log.len() > 0 {
        let before = log.drop_last();
        assert(gapless(before)) by {
            assert forall|i: int| 0 <= i < before.len() implies (#[trigger] before[i]).rev_id == i
                + 1 by {
                assert(before[i] == log[i]);
            }
        }
        lemma_replay_rev_id(before);
        assert(log.last() == log[log.len() - 1]);
    }
}

/// Appending a revision that applies to the pad keeps the pad the replay of the log.
pub proof fn lemma_replay_push(log: Seq<RevisionModel>, pad: PadModel, rev: RevisionModel)
    requires
        replay(log) == Ok::<PadModel, ErrorCode>(pad),
    ensures
        replay(log.push(rev)) == apply_revision(pad, rev),
{
    assert(log.push(rev).drop_last() =~= log);
}

/// Snapshot law: the pad that a manager tracks has the snapshot of the pad
/// rebuilt from the manager's whole log.
pub proof fn lemma_snapshot_matches_replay(m: ManagerModel, pad: PadModel)
    requires
        m.tracks(pad),
    ensures
        replay(m.log) is Ok,
        replay(m.log)->Ok_0.snapshot() == pad.snapshot(),
        replay(m.log)->Ok_0.rev_id == pad.rev_id,
{
}

} // verus!
