//! The state of the revision manager and the steps it takes, each stated
//! against the invariant of the state.

use crate::cache::{gapless, range_of, RevisionCache};
use crate::checksum::{checksum, checksum_of};
use crate::codec::parse;
use crate::delta::Delta;
use crate::errors::ErrorCode;
use crate::manager_model::{
    ack_count, ack_next, add_local_error, add_local_next, apply_local_error, apply_local_next, confirm_error,
    confirm_next, deltas_of, drained, is_buffered, is_first_ready, lemma_first_ready_unique,
    lemma_replay_push, lemma_replay_rev_id, lemma_replay_split, load_history, local_revision,
    log_pending, pending_ok, rebased_pending, remote_error, remote_next, resolved_revision,
    ManagerModel, PendingModel, Phase, SyncState, GAP_RETRY_BUDGET,
};
use crate::op::Op;
use crate::pad::{replay, Pad, PadModel};
use crate::rebase::{
    apply_all, chain, chain_end, lemma_chain_len, lemma_chain_push, lemma_chain_skip,
    lemma_chain_take, lemma_rebase_converges, lemma_rebase_len, rebase, rebase_fits, transformed,
};
use crate::revision::{revisions_view, Revision, RevisionModel};
use crate::semantics::{apply, base_len, target_len};
use crate::semantics_proofs::lemma_apply_len;
use vstd::prelude::*;

verus! {

/// A local revision that waits for its acknowledgment, with its delta.
pub struct PendingRevision {
    revision: Revision,
    delta: Delta,
}

impl View for PendingRevision {
    type V = PendingModel;

    closed spec fn view(&self) -> PendingModel {
        PendingModel { revision: self.revision@, delta: self.delta@ }
    }
}

/// The models of the pending queue.
pub closed spec fn pending_view(pending: Seq<PendingRevision>) -> Seq<PendingModel> {
    pending.map_values(|p: PendingRevision| p@)
}

/// The fields of the revision manager of one object.
pub struct ManagerCore {
    object_id: String,
    user_id: String,
    phase: Phase,
    rebased: bool,
    counter: u64,
    cache: RevisionCache,
    base_text: String,
    acked: u64,
    pending: Vec<PendingRevision>,
    head_len: usize,
    buffered: Vec<Revision>,
    gap_retries: usize,
}

impl View for ManagerCore {
    type V = ManagerModel;

    closed spec fn view(&self) -> ManagerModel {
        ManagerModel {
            object_id: self.object_id@,
            user_id: self.user_id@,
            phase: self.phase,
            rebased: self.rebased,
            counter: self.counter,
            log: self.cache@,
            base: PadModel { text: self.base_text@, rev_id: self.acked },
            pending: pending_view(self.pending@),
            buffered: revisions_view(self.buffered@),
            gap_retries: self.gap_retries,
        }
    }
}

impl ManagerCore {
    /// What holds of the fields beside the model: the deltas of the pending
    /// revisions are well formed, and the cached length is that of the head.
    closed spec fn inv(&self) -> bool {
        &&& self.head_len == self@.head_len()
    }

    /// The manager is well formed: its model is, and its fields agree with it.
    pub closed spec fn wf(&self) -> bool {
        self@.wf() && self.inv()
    }

    /// The model of a well-formed manager is well formed.
    pub proof fn lemma_wf(&self)
        requires
            self.wf(),
        ensures
            self@.wf(),
    {
    }

    /// A manager for the object `object_id`, edited by `user_id`, over the
    /// log that was kept for it. Nothing is loaded yet.
    pub fn new(user_id: &str, object_id: &str, cache: RevisionCache) -> (m: Self)
        ensures
            m.wf(),
            m@ == (ManagerModel {
                object_id: object_id@,
                user_id: user_id@,
                phase: Phase::Uninitialized,
                rebased: false,
                counter: 0,
                log: cache@,
                base: PadModel::empty(),
                pending: Seq::empty(),
                buffered: Seq::empty(),
                gap_retries: 0,
            }),
    {
        let _ = cache.revisions();
        let m = ManagerCore {
            object_id: object_id.to_owned(),
            user_id: user_id.to_owned(),
            phase: Phase::Uninitialized,
            rebased: false,
            counter: 0,
            cache,
            base_text: String::new(),
            acked: 0,
            pending: Vec::new(),
            head_len: 0,
            buffered: Vec::new(),
            gap_retries: 0,
        };
        proof {
            assert(m@.pending =~= Seq::<PendingModel>::empty());
            assert(m@.buffered =~= Seq::<RevisionModel>::empty());
            assert(m@.deltas() =~= Seq::<Seq<Op>>::empty());
        }
        m
    }

    /// A manager for no object, with nothing in it.
    pub fn blank() -> (m: Self)
        ensures
            m.wf(),
            m@ == ManagerModel::blank(),
    {
        proof {
            reveal_strlit("");
            assert(""@ =~= Seq::<char>::empty());
        }
        Self::new("", "", RevisionCache::new())
    }

    /// The state of the session.
    pub fn state(&self) -> (s: SyncState)
        ensures
            s == self@.state(),
    {
        match self.phase {
            Phase::Uninitialized => SyncState::Uninitialized,
            Phase::Loading => SyncState::Loading,
            Phase::Diverged => SyncState::Diverged,
            Phase::Ready => if self.buffered.len() > 0 || self.rebased {
                SyncState::Conflicted
            } else {
                SyncState::Synced
            },
        }
    }

    /// Whether the session takes edits and revisions.
    pub fn is_ready(&self) -> (b: bool)
        ensures
            b == self@.is_ready(),
    {
        match self.phase {
            Phase::Ready => true,
            _ => false,
        }
    }

    /// Whether the session has diverged.
    pub fn is_diverged(&self) -> (b: bool)
        ensures
            b == (self@.phase == Phase::Diverged),
    {
        match self.phase {
            Phase::Diverged => true,
            _ => false,
        }
    }

    /// The object's id.
    pub fn object_id(&self) -> (id: &str)
        ensures
            id@ == self@.object_id,
    {
        self.object_id.as_str()
    }

    /// The last known revision id: the confirmed one and the pending ones.
    pub fn rev_id(&self) -> (id: u64)
        requires
            self.wf(),
        ensures
            id == self@.known(),
    {
        self.acked + self.pending.len() as u64
    }

    /// The last revision id that the server has confirmed.
    pub fn acked_rev_id(&self) -> (id: u64)
        ensures
            id == self@.base.rev_id,
    {
        self.acked
    }

    /// The log.
    pub fn cache(&self) -> (cache: &RevisionCache)
        requires
            self.wf(),
        ensures
            cache@ == self@.log,
    {
        &self.cache
    }

    /// How many local revisions wait for their acknowledgment.
    pub fn pending_len(&self) -> (n: usize)
        ensures
            n == self@.pending.len(),
    {
        self.pending.len()
    }

    /// How many remote revisions wait behind a gap.
    pub fn buffered_len(&self) -> (n: usize)
        ensures
            n == self@.buffered.len(),
    {
        self.buffered.len()
    }

    /// Starts loading. It says whether the log is empty, so that the history
    /// has to come from the cloud. Loading starts once only.
    pub fn begin_load(&mut self) -> (r: Result<bool, ErrorCode>)
        requires
            old(self).wf(),
        ensures
            final(self).wf(),
            old(self)@.phase == Phase::Uninitialized ==> r == Ok::<bool, ErrorCode>(
                old(self)@.log.len() == 0,
            ) && final(self)@ == (ManagerModel { phase: Phase::Loading, ..old(self)@ }),
            old(self)@.phase != Phase::Uninitialized ==> r == Err::<bool, ErrorCode>(
                ErrorCode::OutOfOrder,
            ) && final(self)@ == old(self)@,
    {
        match self.phase {
            Phase::Uninitialized => {
                self.phase = Phase::Loading;
                Ok(self.cache.len() == 0)
            },
            _ => Err(ErrorCode::OutOfOrder),
        }
    }

    /// Ends loading: replays the log, or where it is empty the history that
    /// the cloud gave, into a new pad, and makes the session ready. A history
    /// with gaps, or one that does not replay, is refused: then nothing is
    /// loaded and loading can start again. What was loaded counts as
    /// confirmed until the server reports an earlier revision (`confirm`).
    pub fn load(&mut self, cloud_history: Vec<Revision>) -> (r: Result<Pad, ErrorCode>)
        requires
            old(self).wf(),
        ensures
            final(self).wf(),
            old(self)@.phase != Phase::Loading ==> r == Err::<Pad, ErrorCode>(
                ErrorCode::OutOfOrder,
            ) && final(self)@ == old(self)@,
            old(self)@.phase == Phase::Loading ==> ({
                let history = load_history(old(self)@, revisions_view(cloud_history@));
                if !gapless(history) {
                    &&& r == Err::<Pad, ErrorCode>(ErrorCode::OutOfOrder)
                    &&& final(self)@ == (ManagerModel {
                        phase: Phase::Uninitialized,
                        ..old(self)@
                    })
                } else {
                    match replay(history) {
                        Err(e) => {
                            &&& r == Err::<Pad, ErrorCode>(e)
                            &&& final(self)@ == (ManagerModel {
                                phase: Phase::Uninitialized,
                                ..old(self)@
                            })
                        },
                        Ok(pad) => {
                            &&& r is Ok
                            &&& r->Ok_0@ == pad
                            &&& final(self)@ == (ManagerModel {
                                phase: Phase::Ready,
                                log: history,
                                base: pad,
                                counter: pad.rev_id,
                                ..old(self)@
                            })
                            &&& final(self)@.tracks(pad)
                        },
                    }
                }
            }),
    {
        match self.phase {
            Phase::Loading => {},
            _ => {
                return Err(ErrorCode::OutOfOrder);
            },
        }
        let ghost before = self@;
        let ghost history = load_history(before, revisions_view(cloud_history@));
        let from_cloud = self.cache.len() == 0;
        let fetched = if from_cloud {
            match RevisionCache::restore(cloud_history) {
                Ok(c) => Some(c),
                Err(e) => {
                    self.phase = Phase::Uninitialized;
                    return Err(e);
                },
            }
        } else {
            None
        };
        let replayed = match &fetched {
            Some(c) => Pad::from_revisions(c.revisions()),
            None => Pad::from_revisions(self.cache.revisions()),
        };
        match replayed {
            Err(e) => {
                self.phase = Phase::Uninitialized;
                Err(e)
            },
            Ok(pad) => {
                proof {
                    lemma_replay_rev_id(history);
                }
                match fetched {
                    Some(c) => {
                        self.cache = c;
                    },
                    None => {},
                }
                self.base_text = pad.text().to_owned();
                self.acked = pad.rev_id();
                self.counter = pad.rev_id();
                self.head_len = pad.text().unicode_len();
                self.phase = Phase::Ready;
                proof {
                    assert(self@.deltas() =~= Seq::<Seq<Op>>::empty());
                }
                Ok(pad)
            },
        }
    }

    /// Drops everything, the log too, so that the session can be loaded
    /// anew from the cloud.
    pub fn reset(&mut self)
        ensures
            final(self).wf(),
            final(self)@ == (ManagerModel {
                object_id: old(self)@.object_id,
                user_id: old(self)@.user_id,
                phase: Phase::Uninitialized,
                rebased: false,
                counter: 0,
                log: Seq::empty(),
                base: PadModel::empty(),
                pending: Seq::empty(),
                buffered: Seq::empty(),
                gap_retries: 0,
            }),
    {
        self.phase = Phase::Uninitialized;
        self.rebased = false;
        self.counter = 0;
        self.cache.clear();
        self.base_text = String::new();
        self.acked = 0;
        self.pending = Vec::new();
        self.head_len = 0;
        self.buffered = Vec::new();
        self.gap_retries = 0;
        proof {
            assert(self@.pending =~= Seq::<PendingModel>::empty());
            assert(self@.buffered =~= Seq::<RevisionModel>::empty());
            assert(self@.deltas() =~= Seq::<Seq<Op>>::empty());
        }
    }

    /// Reserves the next pair of base and revision id. No pair is handed out
    /// twice in a row: the next call gives the pair after this one.
    pub fn next_rev_id_pair(&mut self) -> (pair: (u64, u64))
        requires
            old(self).wf(),
            old(self)@.counter < u64::MAX,
        ensures
            final(self).wf(),
            pair.0 == old(self)@.counter,
            pair.1 == old(self)@.counter + 1,
            final(self)@ == (ManagerModel { counter: pair.1, ..old(self)@ }),
    {
        let base = self.counter;
        self.counter = base + 1;
        (base, base + 1)
    }

    /// The oldest pending revision, as it is to be sent, if any is pending.
    pub fn oldest_pending(&self) -> (r: Option<Revision>)
        ensures
            r is Some <==> self@.pending.len() > 0,
            r matches Some(rev) ==> rev@ == self@.pending[0].revision,
    {
        if self.pending.len() == 0 {
            None
        } else {
            assert(self@.pending[0] == self.pending@[0]@);
            Some(self.pending[0].revision.clone())
        }
    }

    /// The pending revisions from place `from` on, oldest first, as they are
    /// to be sent.
    pub fn pending_revisions_from(&self, from: usize) -> (r: Vec<Revision>)
        requires
            from <= self@.pending.len(),
        ensures
            revisions_view(r@) == self@.pending_revisions().skip(from as int),
    {
        let ghost all = self@.pending_revisions();
        let mut out: Vec<Revision> = Vec::new();
        let mut i: usize = from;
        proof {
            assert(revisions_view(out@) =~= all.subrange(from as int, from as int));
        }
        while i < self.pending.len()
            invariant
                from <= i <= self.pending@.len(),
                all == self@.pending_revisions(),
                revisions_view(out@) == all.subrange(from as int, i as int),
            decreases self.pending@.len() - i,
        {
            let ghost before = revisions_view(out@);
            out.push(self.pending[i].revision.clone());
            proof {
                assert(revisions_view(out@) =~= before.push(self.pending@[i as int]@.revision));
                assert(all.subrange(from as int, i + 1) =~= all.subrange(
                    from as int,
                    i as int,
                ).push(self.pending@[i as int]@.revision));
            }
            i = i + 1;
        }
        proof {
            assert(all.subrange(from as int, i as int) =~= all.skip(from as int));
        }
        out
    }

    /// The pending revisions, oldest first, as they are to be sent.
    pub fn pending_revisions(&self) -> (r: Vec<Revision>)
        ensures
            revisions_view(r@) == self@.pending_revisions(),
    {
        let r = self.pending_revisions_from(0);
        proof {
            assert(self@.pending_revisions().skip(0) =~= self@.pending_revisions());
        }
        r
    }

    /// Takes a local revision into the pending queue and the log. It is
    /// refused as `add_local_error` says; after a `Conflict` the next pair
    /// handed out starts at the last known revision.
    pub fn add_local_revision(&mut self, revision: &Revision) -> (r: Result<(), ErrorCode>)
        requires
            old(self).wf(),
        ensures
            final(self).wf(),
            r == match add_local_error(old(self)@, revision@) {
                Some(e) => Err::<(), ErrorCode>(e),
                None => Ok(()),
            },
            final(self)@ == add_local_next(old(self)@, revision@),
    {
        match self.phase {
            Phase::Diverged => {
                return Err(ErrorCode::Divergence);
            },
            Phase::Ready => {},
            _ => {
                return Err(ErrorCode::OutOfOrder);
            },
        }
        let ghost before = self@;
        let known = self.acked + self.pending.len() as u64;
        if revision.base_rev_id != known {
            self.counter = known;
            return Err(ErrorCode::Conflict);
        }
        if !revision.is_step() {
            return Err(ErrorCode::OutOfOrder);
        }
        let delta = match Delta::from_bytes(revision.delta_bytes.as_slice()) {
            Ok(d) => d,
            Err(e) => {
                return Err(e);
            },
        };
        if delta.base_len() != self.head_len {
            return Err(ErrorCode::MalformedDelta);
        }
        match self.cache.append(revision.clone()) {
            Ok(()) => {},
            Err(e) => {
                assert(false);
                return Err(e);
            },
        }
        proof {
            lemma_chain_push(before.deltas(), delta@, before.base.text);
        }
        self.head_len = delta.target_len();
        self.pending.push(PendingRevision { revision: revision.clone(), delta });
        if self.counter < revision.rev_id {
            self.counter = revision.rev_id;
        }
        proof {
            let p = PendingModel { revision: revision@, delta: delta@ };
            assert(self@.pending =~= before.pending.push(p));
            assert(self@.deltas() =~= before.deltas().push(delta@));
            assert(self@.pending_numbered()) by {
                assert forall|i: int| 0 <= i < self@.pending.len() implies pending_ok(
                    #[trigger] self@.pending[i],
                    self@.base.rev_id,
                    i,
                ) by {
                    if i < before.pending.len() {
                        assert(self@.pending[i] == before.pending[i]);
                    }
                }
            }
        }
        Ok(())
    }

    /// Takes the acknowledgment of `rev_id`: the pending revisions numbered
    /// up to it leave the queue and count as confirmed. It says how many
    /// left. Before loading and after a divergence nothing is confirmed.
    pub fn ack(&mut self, rev_id: u64) -> (n: usize)
        requires
            old(self).wf(),
        ensures
            final(self).wf(),
            n == ack_count(old(self)@, rev_id),
            final(self)@ == ack_next(old(self)@, rev_id),
            final(self)@.head_text() == old(self)@.head_text(),
            final(self)@.known() == old(self)@.known(),
    {
        let ghost before = self@;
        let ghost ds = before.deltas();
        let ghost t0 = before.base.text;
        let count = self.pending.len();
        let n: usize = match self.phase {
            Phase::Ready => if rev_id <= self.acked {
                0
            } else if rev_id - self.acked >= count as u64 {
                count
            } else {
                (rev_id - self.acked) as usize
            },
            _ => 0,
        };
        let mut text = self.base_text.clone();
        let mut i: usize = 0;
        proof {
            assert(ds.take(0) =~= Seq::<Seq<Op>>::empty());
            assert(ds.skip(0) =~= ds);
        }
        while i < n
            invariant
                i <= n <= self.pending@.len(),
                self.wf(),
                self@ == before,
                ds == before.deltas(),
                t0 == before.base.text,
                text@ == apply_all(ds.take(i as int), t0),
                chain(ds.skip(i as int), text@.len()),
                apply_all(ds.skip(i as int), text@) == apply_all(ds, t0),
                chain_end(ds.skip(i as int), text@.len()) == chain_end(ds, t0.len()),
            decreases n - i,
        {
            let ghost rest = ds.skip(i as int);
            let ghost cur = text@;
            proof {
                assert(rest[0] == self.pending@[i as int].delta@);
                assert(rest.skip(1) =~= ds.skip(i + 1));
                lemma_chain_skip(rest, cur);
                lemma_chain_take(ds, t0.len(), i as int);
                lemma_chain_push(ds.take(i as int), ds[i as int], t0);
                assert(ds.take(i as int).push(ds[i as int]) =~= ds.take(i + 1));
            }
            text = match self.pending[i].delta.apply(text.as_str()) {
                Ok(t) => t,
                Err(_) => {
                    assert(false);
                    text
                },
            };
            i = i + 1;
        }
        let rest = self.pending.split_off(n);
        self.pending = rest;
        self.base_text = text;
        self.acked = self.acked + n as u64;
        if n == count {
            self.rebased = false;
        }
        proof {
            assert(self@.pending =~= before.pending.skip(n as int));
            assert(self@.deltas() =~= ds.skip(n as int));
            assert(self@.pending_numbered()) by {
                assert forall|j: int| 0 <= j < self@.pending.len() implies pending_ok(
                    #[trigger] self@.pending[j],
                    self@.base.rev_id,
                    j,
                ) by {
                    assert(self@.pending[j] == before.pending[j + n]);
                    assert(pending_ok(before.pending[j + n], before.base.rev_id, j + n));
                }
            }
        }
        n
    }

    /// Takes the server's report of its latest revision and the checksum of
    /// its state there, as `confirm_error` and `confirm_next` say. A report
    /// of the confirmed revision is checked against the confirmed text. A
    /// report behind it, while nothing is pending, takes the confirmation
    /// back: the revisions of the log after the reported one are pending
    /// again. That is how the revisions of a log that was loaded come to be
    /// sent where the server has not got them. The pad stays as it is.
    pub fn confirm(&mut self, pad: &Pad, rev_id: u64, checksum: &String) -> (r: Result<
        (),
        ErrorCode,
    >)
        requires
            old(self).wf(),
            old(self)@.tracks(pad@),
        ensures
            final(self).wf(),
            final(self)@.tracks(pad@),
            r == match confirm_error(old(self)@, rev_id, checksum@) {
                Some(e) => Err::<(), ErrorCode>(e),
                None => Ok(()),
            },
            final(self)@ == confirm_next(old(self)@, rev_id, checksum@),
    {
        match self.phase {
            Phase::Diverged => {
                return Err(ErrorCode::Divergence);
            },
            Phase::Ready => {},
            _ => {
                return Err(ErrorCode::OutOfOrder);
            },
        }
        if rev_id > self.acked {
            return Ok(());
        }
        if rev_id == self.acked {
            if checksum_of(self.base_text.as_str().as_bytes()) != *checksum {
                self.phase = Phase::Diverged;
                return Err(ErrorCode::Divergence);
            }
            return Ok(());
        }
        if self.pending.len() > 0 {
            self.phase = Phase::Diverged;
            return Err(ErrorCode::Divergence);
        }
        let ghost m0 = self@;
        let ghost log = m0.log;
        let ghost s = rev_id as int;
        proof {
            assert(m0.deltas() =~= Seq::<Seq<Op>>::empty());
            lemma_replay_split(log, s);
            assert(range_of(log, 1, rev_id) =~= log.take(s));
        }
        let mut range = self.cache.read_range(1, rev_id);
        let prefix = range.collect(&self.cache);
        let start = match Pad::from_revisions(&prefix) {
            Ok(p) => p,
            Err(e) => {
                assert(false);
                return Err(e);
            },
        };
        if start.checksum() != *checksum {
            self.phase = Phase::Diverged;
            return Err(ErrorCode::Divergence);
        }
        let entries = self.cache.revisions();
        let count = entries.len();
        let mut pending: Vec<PendingRevision> = Vec::new();
        let mut i: usize = rev_id as usize;
        proof {
            assert(pending_view(pending@) =~= log_pending(log, s).take(0));
        }
        while i < count
            invariant
                s <= i <= count,
                s == rev_id,
                count == log.len(),
                revisions_view(entries@) == log,
                log_pending(log, s).len() == log.len() - s,
                forall|j: int|
                    0 <= j < log.len() - s ==> pending_ok(
                        #[trigger] log_pending(log, s)[j],
                        s as u64,
                        j,
                    ),
                pending_view(pending@) == log_pending(log, s).take(i - s),
            decreases count - i,
        {
            let ghost before = pending_view(pending@);
            let ghost want = log_pending(log, s)[i - s];
            proof {
                assert(pending_ok(want, s as u64, i - s));
                assert(log[i as int] == entries@[i as int]@);
            }
            let revision = entries[i].clone();
            let delta = match Delta::from_bytes(revision.delta_bytes.as_slice()) {
                Ok(d) => d,
                Err(e) => {
                    assert(false);
                    return Err(e);
                },
            };
            pending.push(PendingRevision { revision, delta });
            proof {
                assert(pending_view(pending@) =~= before.push(want));
                assert(log_pending(log, s).take(i + 1 - s) =~= log_pending(log, s).take(
                    i - s,
                ).push(want));
            }
            i = i + 1;
        }
        proof {
            assert(log_pending(log, s).take(count - s) =~= log_pending(log, s));
            lemma_chain_len(deltas_of(log_pending(log, s)), start@.text);
        }
        self.pending = pending;
        self.base_text = start.text().to_owned();
        self.acked = rev_id;
        Ok(())
    }

    /// Rebases the pending revisions onto a remote delta: each is transformed
    /// against the remote delta as the ones before it left it, renumbered
    /// after `rev_id`, and given the checksum of the text it leads to from
    /// `base_text`. It gives the new queue, the remote delta as the queue
    /// leaves it, and the text after the queue.
    fn rebase_pending(
        pending: &Vec<PendingRevision>,
        remote: Delta,
        base_text: &str,
        rev_id: u64,
    ) -> (r: Result<(Vec<PendingRevision>, Delta, String), ErrorCode>)
        requires
            chain(deltas_of(pending_view(pending@)), base_len(remote@)),
            base_text@.len() == target_len(remote@),
            rev_id + pending@.len() <= u64::MAX,
        ensures
            r is Ok <==> rebase_fits(
                deltas_of(pending_view(pending@)),
                remote@,
            ),
            r matches Err(e) ==> e == ErrorCode::MalformedDelta,
            r matches Ok(out) ==> {
                let ls = deltas_of(pending_view(pending@));
                &&& pending_view(out.0@) == rebased_pending(
                    pending_view(pending@),
                    rebase(ls, remote@).0,
                    base_text@,
                    rev_id,
                )
                &&& forall|i: int|
                    0 <= i < out.0@.len() ==> parse((#[trigger] out.0@[i])@.revision.delta_bytes)
                        == Some(out.0@[i]@.delta)
                &&& out.1@ == rebase(ls, remote@).1
                &&& out.2@ == apply_all(rebase(ls, remote@).0, base_text@)
            },
    {
        let ghost old_pending = pending_view(pending@);
        let ghost ls = deltas_of(old_pending);
        let ghost r0 = remote@;
        let ghost want = rebase(ls, r0).0;
        let mut out: Vec<PendingRevision> = Vec::new();
        let mut cur = remote;
        let mut text = base_text.to_owned();
        let mut i: usize = 0;
        proof {
            assert(ls.skip(0) =~= ls);
            assert(Seq::<Seq<Op>>::empty() + rebase(ls, r0).0 =~= rebase(ls, r0).0);
            assert(want.take(0) =~= Seq::<Seq<Op>>::empty());
            lemma_rebase_len(ls, r0);
        }
        while i < pending.len()
            invariant
                i <= pending@.len(),
                out@.len() == i,
                old_pending == pending_view(pending@),
                ls == deltas_of(old_pending),
                want == rebase(ls, r0).0,
                forall|j: int|
                    0 <= j < i ==> parse((#[trigger] out@[j])@.revision.delta_bytes) == Some(
                        out@[j]@.delta,
                    ),
                want.len() == ls.len(),
                ls.len() == pending@.len(),
                r0 == remote@,
                rev_id + pending@.len() <= u64::MAX,
                chain(ls.skip(i as int), base_len(cur@)),
                text@.len() == target_len(cur@),
                rebase_fits(ls, r0) == rebase_fits(ls.skip(i as int), cur@),
                want == want.take(i as int) + rebase(ls.skip(i as int), cur@).0,
                rebase(ls, r0).1 == rebase(ls.skip(i as int), cur@).1,
                text@ == apply_all(want.take(i as int), base_text@),
                forall|j: int|
                    0 <= j < i ==> (#[trigger] out@[j])@ == rebased_pending(
                        old_pending,
                        want,
                        base_text@,
                        rev_id,
                    )[j],
            decreases pending@.len() - i,
        {
            let ghost rest = ls.skip(i as int);
            let ghost done = want.take(i as int);
            let ghost before_text = text@;
            proof {
                assert(rest[0] == pending@[i as int].delta@);
                assert(rest.skip(1) =~= ls.skip(i + 1));
            }
            let local = &pending[i];
            let (l1, r1) = match local.delta.transform(&cur) {
                Ok(pair) => pair,
                Err(e) => {
                    proof {
                        assert(local.delta@ == rest[0]);
                        assert(base_len(rest[0]) == base_len(cur@));
                        assert(!rebase_fits(rest, cur@));
                    }
                    return Err(e);
                },
            };
            proof {
                assert(local.delta@ == rest[0]);
                assert(rebase_fits(rest, cur@) == rebase_fits(rest.skip(1), r1@));
            }
            proof {
                let tail = rebase(rest.skip(1), r1@).0;
                assert(rebase(rest, cur@).0 == seq![l1@] + tail);
                assert(want =~= done.push(l1@) + tail);
                assert(want.take(i + 1) =~= done.push(l1@));
                assert(want[i as int] == l1@);
                // the text so far is the start of a chain, so one more delta applies at its end
                Self::lemma_apply_all_push(done, l1@, base_text@);
            }
            text = match l1.apply(text.as_str()) {
                Ok(t) => t,
                Err(_) => {
                    assert(false);
                    text
                },
            };
            proof {
                lemma_apply_len(l1@, before_text);
            }
            let revision = Revision::new(
                local.revision.object_id.as_str(),
                rev_id + i as u64,
                rev_id + i as u64 + 1,
                l1.to_bytes(),
                local.revision.author_id.as_str(),
                checksum_of(text.as_str().as_bytes()),
            );
            out.push(PendingRevision { revision, delta: l1 });
            cur = r1;
            i = i + 1;
        }
        proof {
            assert(ls.skip(i as int) =~= Seq::<Seq<Op>>::empty());
            assert(want.take(i as int) =~= want);
            assert(pending_view(out@) =~= rebased_pending(old_pending, want, base_text@, rev_id));
        }
        Ok((out, cur, text))
    }

    /// Applying one more delta after others.
    proof fn lemma_apply_all_push(ls: Seq<Seq<Op>>, l: Seq<Op>, text: Seq<char>)
        ensures
            apply_all(ls.push(l), text) == apply(l, apply_all(ls, text)),
        decreases ls.len(),
    {
        let all = ls.push(l);
        if ls.len() == 0 {
            assert(all.skip(1) =~= Seq::<Seq<Op>>::empty());
            assert(apply_all(all.skip(1), apply(l, text)) == apply(l, text));
        } else {
            assert(all[0] == ls[0]);
            assert(all.skip(1) =~= ls.skip(1).push(l));
            Self::lemma_apply_all_push(ls.skip(1), l, apply(ls[0], text));
        }
    }

    /// Whether a revision of this id waits in the buffer.
    fn has_buffered(&self, rev_id: u64) -> (b: bool)
        ensures
            b == is_buffered(self@, rev_id),
    {
        let mut i: usize = 0;
        while i < self.buffered.len()
            invariant
                i <= self.buffered@.len(),
                forall|j: int| 0 <= j < i ==> (#[trigger] self@.buffered[j]).rev_id != rev_id,
            decreases self.buffered@.len() - i,
        {
            assert(self@.buffered[i as int] == self.buffered@[i as int]@);
            if self.buffered[i].rev_id == rev_id {
                return true;
            }
            i = i + 1;
        }
        false
    }

    /// Receives a revision from the server, as `remote_error` and
    /// `remote_next` say. A revision that was received before changes
    /// nothing. One ahead of a gap waits in the buffer. The oldest pending
    /// revision come back acknowledges it. Any other revision that starts at
    /// the confirmed revision goes into the pad at once; pending local
    /// revisions are transformed against it, in their order, and renumbered
    /// after it. A checksum that does not match ends the session as
    /// diverged. Any other refusal leaves manager and pad as they were.
    pub fn receive_remote_revision(&mut self, pad: &mut Pad, revision: &Revision) -> (r: Result<
        (),
        ErrorCode,
    >)
        requires
            old(self).wf(),
            old(self)@.tracks(old(pad)@),
        ensures
            final(self).wf(),
            final(self)@.tracks(final(pad)@),
            r == match remote_error(old(self)@, revision@) {
                Some(e) => Err::<(), ErrorCode>(e),
                None => Ok(()),
            },
            (final(self)@, final(pad)@) == remote_next(old(self)@, old(pad)@, revision@),
    {
        let ghost m0 = self@;
        let ghost pad0 = pad@;
        match self.phase {
            Phase::Diverged => {
                return Err(ErrorCode::Divergence);
            },
            Phase::Ready => {},
            _ => {
                return Err(ErrorCode::OutOfOrder);
            },
        }
        if !revision.is_step() {
            return Err(ErrorCode::OutOfOrder);
        }
        if revision.rev_id <= self.acked {
            return Ok(());
        }
        if revision.base_rev_id > self.acked {
            if self.gap_retries >= GAP_RETRY_BUDGET {
                self.phase = Phase::Diverged;
                return Err(ErrorCode::Divergence);
            }
            let waits = self.has_buffered(revision.rev_id);
            self.gap_retries = self.gap_retries + 1;
            if !waits {
                self.buffered.push(revision.clone());
                proof {
                    assert(self@.buffered =~= m0.buffered.push(revision@));
                }
            }
            return Ok(());
        }
        if self.pending.len() > 0 && self.pending[0].revision.same(revision) {
            proof {
                assert(m0.pending[0] == self.pending@[0]@);
            }
            let _ = self.ack(revision.rev_id);
            return Ok(());
        }
        proof {
            if m0.pending.len() > 0 {
                assert(m0.pending[0] == self.pending@[0]@);
            }
        }
        let known = self.acked + self.pending.len() as u64;
        if known == u64::MAX {
            return Err(ErrorCode::OutOfOrder);
        }
        let remote = match Delta::from_bytes(revision.delta_bytes.as_slice()) {
            Ok(d) => d,
            Err(e) => {
                return Err(e);
            },
        };
        let base_text = match remote.apply(self.base_text.as_str()) {
            Ok(t) => t,
            Err(e) => {
                return Err(e);
            },
        };
        if checksum_of(base_text.as_str().as_bytes()) != revision.checksum {
            self.phase = Phase::Diverged;
            return Err(ErrorCode::Divergence);
        }
        proof {
            lemma_apply_len(remote@, m0.base.text);
            lemma_rebase_converges(m0.deltas(), remote@, m0.base.text);
            lemma_chain_len(m0.deltas(), m0.base.text);
        }
        let (queue, last, text) = match Self::rebase_pending(
            &self.pending,
            remote,
            base_text.as_str(),
            revision.rev_id,
        ) {
            Ok(out) => out,
            Err(e) => {
                return Err(e);
            },
        };
        let head_len = text.as_str().unicode_len();
        let resolved = Revision::new(
            revision.object_id.as_str(),
            known,
            known + 1,
            last.to_bytes(),
            revision.author_id.as_str(),
            checksum_of(text.as_str().as_bytes()),
        );
        proof {
            let ls = rebase(m0.deltas(), parse(revision@.delta_bytes)->0).0;
            lemma_chain_len(ls, base_text@);
            lemma_replay_push(m0.log, pad0, resolved@);
            assert(resolved@ == resolved_revision(m0, revision@, last@, text@));
        }
        match self.cache.append(resolved) {
            Ok(()) => {},
            Err(e) => {
                assert(false);
                return Err(e);
            },
        }
        self.rebased = self.pending.len() > 0;
        self.pending = queue;
        self.base_text = base_text;
        self.acked = revision.rev_id;
        self.head_len = head_len;
        self.gap_retries = 0;
        if self.counter <= known {
            self.counter = known + 1;
        }
        pad.set(text, known + 1);
        proof {
            let ls = rebase(m0.deltas(), parse(revision@.delta_bytes)->0).0;
            assert(self@.deltas() =~= ls);
            assert(self@.pending_numbered()) by {
                assert forall|i: int| 0 <= i < self@.pending.len() implies pending_ok(
                    #[trigger] self@.pending[i],
                    self@.base.rev_id,
                    i,
                ) by {
                }
            }
        }
        Ok(())
    }

    /// Takes the first buffered revision that no gap holds back any more
    /// out of the buffer, to be received again.
    pub fn take_ready(&mut self) -> (r: Option<Revision>)
        requires
            old(self).wf(),
        ensures
            final(self).wf(),
            r is Some <==> exists|i: int| is_first_ready(old(self)@, i),
            r is None ==> final(self)@ == old(self)@,
            r matches Some(rev) ==> exists|i: int|
                is_first_ready(old(self)@, i) && rev@ == old(self)@.buffered[i] && final(self)@ == (
                ManagerModel { buffered: old(self)@.buffered.remove(i), ..old(self)@ }),
    {
        let ghost before = self@;
        let mut i: usize = 0;
        while i < self.buffered.len()
            invariant
                i <= self.buffered@.len(),
                self.wf(),
                self@ == before,
                before == old(self)@,
                forall|j: int| 0 <= j < i ==> (#[trigger] before.buffered[j]).base_rev_id
                    > before.base.rev_id,
            decreases self.buffered@.len() - i,
        {
            assert(before.buffered[i as int] == self.buffered@[i as int]@);
            if self.buffered[i].base_rev_id <= self.acked {
                let rev = self.buffered.remove(i);
                proof {
                    assert(self@.buffered =~= before.buffered.remove(i as int));
                    assert(is_first_ready(before, i as int) && rev@ == before.buffered[i as int]
                        && self@ == (ManagerModel {
                        buffered: before.buffered.remove(i as int),
                        ..before
                    }));
                }
                return Some(rev);
            }
            i = i + 1;
        }
        proof {
            assert forall|k: int| !is_first_ready(before, k) by {
                if 0 <= k < before.buffered.len() {
                    assert(before.buffered[k].base_rev_id > before.base.rev_id);
                }
            }
        }
        None
    }
}

impl ManagerCore {
    /// Receives again, one after the other, the buffered revisions that no
    /// gap holds back any more, for as long as there is one and the session
    /// is ready. It says how many were taken out of the buffer.
    pub fn drain_buffer(&mut self, pad: &mut Pad) -> (n: usize)
        requires
            old(self).wf(),
            old(self)@.tracks(old(pad)@),
        ensures
            final(self).wf(),
            final(self)@.tracks(final(pad)@),
            (final(self)@, final(pad)@) == drained(
                old(self)@,
                old(pad)@,
                old(self)@.buffered.len(),
            ),
            n == old(self)@.buffered.len() - final(self)@.buffered.len(),
    {
        let ghost m0 = self@;
        let ghost pad0 = pad@;
        let total = self.buffered.len();
        let mut n: usize = 0;
        loop
            invariant
                self.wf(),
                self@.tracks(pad@),
                drained(self@, pad@, self@.buffered.len()) == drained(m0, pad0, m0.buffered.len()),
                n == m0.buffered.len() - self@.buffered.len(),
                m0.buffered.len() == total,
            ensures
                self.wf(),
                self@.tracks(pad@),
                (self@, pad@) == drained(m0, pad0, m0.buffered.len()),
                n == m0.buffered.len() - self@.buffered.len(),
            decreases self@.buffered.len(),
        {
            let ghost m1 = self@;
            let ghost pad1 = pad@;
            match self.phase {
                Phase::Ready => {},
                _ => {
                    break ;
                },
            }
            let rev = match self.take_ready() {
                Some(rev) => rev,
                None => {
                    break ;
                },
            };
            proof {
                let i = choose|i: int|
                    is_first_ready(m1, i) && rev@ == m1.buffered[i] && self@ == (ManagerModel {
                        buffered: m1.buffered.remove(i),
                        ..m1
                    });
                lemma_first_ready_unique(m1, i);
            }
            let _ = self.receive_remote_revision(pad, &rev);
            n = n + 1;
        }
        n
    }
}

impl Pad {
    /// Applies a local edit: puts the delta into the document, gives it the
    /// next revision id, and hands the revision to the manager's pending
    /// queue and log. It returns the revision for transmission. An edit that
    /// is refused, as `apply_local_error` says, leaves the pad as it was.
    pub(crate) fn apply_local_core(&mut self, manager: &mut ManagerCore, delta: &Delta) -> (r: Result<
        Revision,
        ErrorCode,
    >)
        requires
            old(manager).wf(),
            old(manager)@.tracks(old(self)@),
        ensures
            final(manager).wf(),
            final(manager)@.tracks(final(self)@),
            final(manager)@ == apply_local_next(old(manager)@, delta@, old(self)@.text),
            match apply_local_error(old(manager)@, delta@) {
                Some(e) => r == Err::<Revision, ErrorCode>(e) && final(self)@ == old(self)@,
                None => {
                    &&& r is Ok
                    &&& r->Ok_0@ == local_revision(old(manager)@, delta@, old(self)@.text)
                    &&& final(self)@ == (PadModel {
                        text: apply(delta@, old(self)@.text),
                        rev_id: (old(manager)@.known() + 1) as u64,
                    })
                },
            },
    {
        let ghost m0 = manager@;
        let ghost pad0 = self@;
        proof {
            lemma_chain_len(m0.deltas(), m0.base.text);
        }
        match manager.phase {
            Phase::Diverged => {
                return Err(ErrorCode::Divergence);
            },
            Phase::Ready => {},
            _ => {
                return Err(ErrorCode::OutOfOrder);
            },
        }
        let known = manager.rev_id();
        if manager.counter != known {
            manager.counter = known;
            return Err(ErrorCode::Conflict);
        }
        if known == u64::MAX {
            return Err(ErrorCode::OutOfOrder);
        }
        let text = match self.preview(delta) {
            Ok(t) => t,
            Err(e) => {
                return Err(e);
            },
        };
        let pair = manager.next_rev_id_pair();
        let revision = Revision::new(
            manager.object_id.as_str(),
            pair.0,
            pair.1,
            delta.to_bytes(),
            manager.user_id.as_str(),
            checksum_of(text.as_str().as_bytes()),
        );
        let ghost m1 = manager@;
        match manager.add_local_revision(&revision) {
            Ok(()) => {},
            Err(e) => {
                assert(false);
                return Err(e);
            },
        }
        self.set(text, pair.1);
        proof {
            lemma_replay_push(m0.log, pad0, revision@);
            lemma_chain_push(m0.deltas(), delta@, m0.base.text);
            assert(manager@.deltas() =~= m0.deltas().push(delta@));
        }
        Ok(revision)
    }
}

} // verus!
