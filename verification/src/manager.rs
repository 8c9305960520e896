//! The revision manager: it numbers local revisions, keeps those the server
//! has not acknowledged, reconciles them with the server's revisions and
//! writes the log.

use crate::cache::{gapless, RevisionCache};
use crate::delta::Delta;
use crate::errors::ErrorCode;
use crate::manager_core::ManagerCore;
use crate::manager_model::{
    ack_count, ack_next, add_local_error, add_local_next, apply_local_error, apply_local_next, confirm_error,
    confirm_next, drained,
    is_first_ready, load_history, local_revision, remote_error, remote_next, ManagerModel,
    Phase, SyncState,
};
use crate::pad::{replay, Pad, PadModel};
use crate::revision::{revisions_view, Revision};
use crate::semantics::apply;
use vstd::prelude::*;

verus! {

/// The revision manager of one object.
pub struct RevisionManager {
    core: ManagerCore,
}

impl View for RevisionManager {
    type V = ManagerModel;

    closed spec fn view(&self) -> ManagerModel {
        self.core@
    }
}

impl RevisionManager {
    /// The manager is well formed at all times.
    #[verifier::type_invariant]
    spec fn inv(&self) -> bool {
        self.core.wf()
    }

    /// Takes the fields out for a step and leaves blank ones.
    fn take_core(&mut self) -> (core: ManagerCore)
        ensures
            core.wf(),
            core@ == old(self)@,
            final(self)@ == ManagerModel::blank(),
    {
        proof {
            use_type_invariant(&*self);
        }
        let mut core = ManagerCore::blank();
        core::mem::swap(&mut self.core, &mut core);
        core
    }

    /// Puts the fields back after a step.
    fn put_core(&mut self, core: ManagerCore)
        requires
            core.wf(),
        ensures
            final(self)@ == core@,
    {
        self.core = core;
    }

    /// A manager for the object `object_id`, edited by `user_id`, over the
    /// log that was kept for it. Nothing is loaded yet.
    pub fn new(user_id: &str, object_id: &str, cache: RevisionCache) -> (m: Self)
        ensures
            m@ == (ManagerModel {
                object_id: object_id@,
                user_id: user_id@,
                phase: Phase::Uninitialized,
                rebased: false,
                counter: 0,
                log: cache@,
                base: PadModel::empty(),
                pending: Seq::empty(),
                buffered: Seq::empty(),
                gap_retries: 0,
            }),
    {
        RevisionManager { core: ManagerCore::new(user_id, object_id, cache) }
    }

    /// The state of the session. The model of a manager is well formed at
    /// all times.
    pub fn state(&self) -> (s: SyncState)
        ensures
            s == self@.state(),
            self@.wf(),
    {
        proof {
            use_type_invariant(self);
            self.core.lemma_wf();
        }
        self.core.state()
    }

    /// Whether the session takes edits and revisions.
    pub fn is_ready(&self) -> (b: bool)
        ensures
            b == self@.is_ready(),
    {
        proof {
            use_type_invariant(self);
        }
        self.core.is_ready()
    }

    /// Whether the session has diverged.
    pub fn is_diverged(&self) -> (b: bool)
        ensures
            b == (self@.phase == Phase::Diverged),
    {
        proof {
            use_type_invariant(self);
        }
        self.core.is_diverged()
    }

    /// The object's id.
    pub fn object_id(&self) -> (id: &str)
        ensures
            id@ == self@.object_id,
    {
        proof {
            use_type_invariant(self);
        }
        self.core.object_id()
    }

    /// The last known revision id: the confirmed one and the pending ones.
    pub fn rev_id(&self) -> (id: u64)
        ensures
            id == self@.known(),
    {
        proof {
            use_type_invariant(self);
        }
        self.core.rev_id()
    }

    /// The last revision id that the server has confirmed.
    pub fn acked_rev_id(&self) -> (id: u64)
        ensures
            id == self@.base.rev_id,
    {
        proof {
            use_type_invariant(self);
        }
        self.core.acked_rev_id()
    }

    /// The log.
    pub fn cache(&self) -> (cache: &RevisionCache)
        ensures
            cache@ == self@.log,
    {
        proof {
            use_type_invariant(self);
        }
        self.core.cache()
    }

    /// How many local revisions wait for their acknowledgment.
    pub fn pending_len(&self) -> (n: usize)
        ensures
            n == self@.pending.len(),
    {
        proof {
            use_type_invariant(self);
        }
        self.core.pending_len()
    }

    /// How many remote revisions wait behind a gap.
    pub fn buffered_len(&self) -> (n: usize)
        ensures
            n == self@.buffered.len(),
    {
        proof {
            use_type_invariant(self);
        }
        self.core.buffered_len()
    }

    /// The oldest pending revision, as it is to be sent, if any is pending.
    pub fn oldest_pending(&self) -> (r: Option<Revision>)
        ensures
            r is Some <==> self@.pending.len() > 0,
            r matches Some(rev) ==> rev@ == self@.pending[0].revision,
    {
        proof {
            use_type_invariant(self);
        }
        self.core.oldest_pending()
    }

    /// The pending revisions, oldest first, as they are to be sent.
    pub fn pending_revisions(&self) -> (r: Vec<Revision>)
        ensures
            revisions_view(r@) == self@.pending_revisions(),
    {
        proof {
            use_type_invariant(self);
        }
        self.core.pending_revisions()
    }

    /// Starts loading. It says whether the log is empty, so that the history
    /// has to come from the cloud. Loading starts once only.
    pub fn begin_load(&mut self) -> (r: Result<bool, ErrorCode>)
        ensures
            old(self)@.phase == Phase::Uninitialized ==> r == Ok::<bool, ErrorCode>(
                old(self)@.log.len() == 0,
            ) && final(self)@ == (ManagerModel { phase: Phase::Loading, ..old(self)@ }),
            old(self)@.phase != Phase::Uninitialized ==> r == Err::<bool, ErrorCode>(
                ErrorCode::OutOfOrder,
            ) && final(self)@ == old(self)@,
    {
        let mut core = self.take_core();
        let r = core.begin_load();
        self.put_core(core);
        r
    }

    /// Ends loading: replays the log, or where it is empty the history that
    /// the cloud gave, into a new pad, and makes the session ready. A history
    /// with gaps, or one that does not replay, is refused: then nothing is
    /// loaded and loading can start again. What was loaded counts as
    /// confirmed until the server reports an earlier revision (`confirm`).
    pub fn load(&mut self, cloud_history: Vec<Revision>) -> (r: Result<Pad, ErrorCode>)
        ensures
            old(self)@.phase != Phase::Loading ==> r == Err::<Pad, ErrorCode>(
                ErrorCode::OutOfOrder,
            ) && final(self)@ == old(self)@,
            old(self)@.phase == Phase::Loading ==> ({
                let history = load_history(old(self)@, revisions_view(cloud_history@));
                if !gapless(history) {
                    &&& r == Err::<Pad, ErrorCode>(ErrorCode::OutOfOrder)
                    &&& final(self)@ == (ManagerModel {
                        phase: Phase::Uninitialized,
                        ..old(self)@
                    })
                } else {
                    match replay(history) {
                        Err(e) => {
                            &&& r == Err::<Pad, ErrorCode>(e)
                            &&& final(self)@ == (ManagerModel {
                                phase: Phase::Uninitialized,
                                ..old(self)@
                            })
                        },
                        Ok(pad) => {
                            &&& r is Ok
                            &&& r->Ok_0@ == pad
                            &&& final(self)@ == (ManagerModel {
                                phase: Phase::Ready,
                                log: history,
                                base: pad,
                                counter: pad.rev_id,
                                ..old(self)@
                            })
                            &&& final(self)@.tracks(pad)
                        },
                    }
                }
            }),
    {
        let mut core = self.take_core();
        let r = core.load(cloud_history);
        self.put_core(core);
        r
    }

    /// Drops everything, the log too, so that the session can be loaded
    /// anew from the cloud.
    pub fn reset(&mut self)
        ensures
            final(self)@ == (ManagerModel {
                object_id: old(self)@.object_id,
                user_id: old(self)@.user_id,
                phase: Phase::Uninitialized,
                rebased: false,
                counter: 0,
                log: Seq::empty(),
                base: PadModel::empty(),
                pending: Seq::empty(),
                buffered: Seq::empty(),
                gap_retries: 0,
            }),
    {
        let mut core = self.take_core();
        let r = core.reset();
        self.put_core(core);
        r
    }

    /// Reserves the next pair of base and revision id. No pair is handed out
    /// twice in a row: the next call gives the pair after this one.
    pub fn next_rev_id_pair(&mut self) -> (pair: (u64, u64))
        requires
            old(self)@.counter < u64::MAX,
        ensures
            pair.0 == old(self)@.counter,
            pair.1 == old(self)@.counter + 1,
            final(self)@ == (ManagerModel { counter: pair.1, ..old(self)@ }),
    {
        let mut core = self.take_core();
        let r = core.next_rev_id_pair();
        self.put_core(core);
        r
    }

    /// Takes a local revision into the pending queue and the log. It is
    /// refused as `add_local_error` says; after a `Conflict` the next pair
    /// handed out starts at the last known revision.
    pub fn add_local_revision(&mut self, revision: &Revision) -> (r: Result<(), ErrorCode>)
        ensures
            r == match add_local_error(old(self)@, revision@) {
                Some(e) => Err::<(), ErrorCode>(e),
                None => Ok(()),
            },
            final(self)@ == add_local_next(old(self)@, revision@),
    {
        let mut core = self.take_core();
        let r = core.add_local_revision(revision);
        self.put_core(core);
        r
    }

    /// Takes the acknowledgment of `rev_id`: the pending revisions numbered
    /// up to it leave the queue and count as confirmed. It says how many
    /// left. Before loading and after a divergence nothing is confirmed.
    pub fn ack(&mut self, rev_id: u64) -> (n: usize)
        ensures
            n == ack_count(old(self)@, rev_id),
            final(self)@ == ack_next(old(self)@, rev_id),
            final(self)@.head_text() == old(self)@.head_text(),
            final(self)@.known() == old(self)@.known(),
    {
        let mut core = self.take_core();
        let r = core.ack(rev_id);
        self.put_core(core);
        r
    }

    /// Takes the server's report of its latest revision and the checksum of
    /// its state there, as `confirm_error` and `confirm_next` say. A report
    /// of the confirmed revision is checked against the confirmed text. A
    /// report behind it, while nothing is pending, takes the confirmation
    /// back: the revisions of the log after the reported one are pending
    /// again. That is how the revisions of a log that was loaded come to be
    /// sent where the server has not got them. The pad stays as it is.
    pub fn confirm(&mut self, pad: &Pad, rev_id: u64, checksum: &String) -> (r: Result<
        (),
        ErrorCode,
    >)
        requires
            old(self)@.tracks(pad@),
        ensures
            final(self)@.tracks(pad@),
            r == match confirm_error(old(self)@, rev_id, checksum@) {
                Some(e) => Err::<(), ErrorCode>(e),
                None => Ok(()),
            },
            final(self)@ == confirm_next(old(self)@, rev_id, checksum@),
    {
        let mut core = self.take_core();
        let r = core.confirm(pad, rev_id, checksum);
        self.put_core(core);
        r
    }

    /// Receives a revision from the server, as `remote_error` and
    /// `remote_next` say. A revision that was received before changes
    /// nothing. One ahead of a gap waits in the buffer. The oldest pending
    /// revision come back acknowledges it. Any other revision that starts at
    /// the confirmed revision goes into the pad at once; pending local
    /// revisions are transformed against it, in their order, and renumbered
    /// after it. A checksum that does not match ends the session as
    /// diverged. Any other refusal leaves manager and pad as they were.
    pub fn receive_remote_revision(&mut self, pad: &mut Pad, revision: &Revision) -> (r: Result<
        (),
        ErrorCode,
    >)
        requires
            old(self)@.tracks(old(pad)@),
        ensures
            final(self)@.tracks(final(pad)@),
            r == match remote_error(old(self)@, revision@) {
                Some(e) => Err::<(), ErrorCode>(e),
                None => Ok(()),
            },
            (final(self)@, final(pad)@) == remote_next(old(self)@, old(pad)@, revision@),
    {
        let mut core = self.take_core();
        let r = core.receive_remote_revision(pad, revision);
        self.put_core(core);
        r
    }

    /// Takes the first buffered revision that no gap holds back any more
    /// out of the buffer, to be received again.
    pub fn take_ready(&mut self) -> (r: Option<Revision>)
        ensures
            r is Some <==> exists|i: int| is_first_ready(old(self)@, i),
            r is None ==> final(self)@ == old(self)@,
            r matches Some(rev) ==> exists|i: int|
                is_first_ready(old(self)@, i) && rev@ == old(self)@.buffered[i] && final(self)@ == (
                ManagerModel { buffered: old(self)@.buffered.remove(i), ..old(self)@ }),
    {
        let mut core = self.take_core();
        let r = core.take_ready();
        self.put_core(core);
        r
    }

    /// Receives again, one after the other, the buffered revisions that no
    /// gap holds back any more, for as long as there is one and the session
    /// is ready. It says how many were taken out of the buffer.
    pub fn drain_buffer(&mut self, pad: &mut Pad) -> (n: usize)
        requires
            old(self)@.tracks(old(pad)@),
        ensures
            final(self)@.tracks(final(pad)@),
            (final(self)@, final(pad)@) == drained(
                old(self)@,
                old(pad)@,
                old(self)@.buffered.len(),
            ),
            n == old(self)@.buffered.len() - final(self)@.buffered.len(),
    {
        let mut core = self.take_core();
        let r = core.drain_buffer(pad);
        self.put_core(core);
        r
    }
}

impl Pad {
    /// Applies a local edit: puts the delta into the document, gives it the
    /// next revision id, and hands the revision to the manager's pending
    /// queue and log. It returns the revision for transmission. An edit that
    /// is refused, as `apply_local_error` says, leaves the pad as it was.
    pub fn apply_local(&mut self, manager: &mut RevisionManager, delta: &Delta) -> (r: Result<
        Revision,
        ErrorCode,
    >)
        requires
            old(manager)@.tracks(old(self)@),
        ensures
            final(manager)@.tracks(final(self)@),
            final(manager)@ == apply_local_next(old(manager)@, delta@, old(self)@.text),
            match apply_local_error(old(manager)@, delta@) {
                Some(e) => r == Err::<Revision, ErrorCode>(e) && final(self)@ == old(self)@,
                None => {
                    &&& r is Ok
                    &&& r->Ok_0@ == local_revision(old(manager)@, delta@, old(self)@.text)
                    &&& final(self)@ == (PadModel {
                        text: apply(delta@, old(self)@.text),
                        rev_id: (old(manager)@.known() + 1) as u64,
                    })
                },
            },
    {
        let mut core = manager.take_core();
        let r = self.apply_local_core(&mut core, delta);
        manager.put_core(core);
        r
    }
}

} // verus!
