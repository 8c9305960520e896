//! The editor of one folder: its pad, its revision manager and its sync
//! manager, kept together.

use crate::cache::{gapless, RevisionCache};
use crate::delta::Delta;
use crate::editor_core::EditorCore;
use crate::errors::ErrorCode;
use crate::manager::RevisionManager;
use crate::manager_model::{
    ack_count, ack_next, apply_local_error, apply_local_next, confirm_next, drained,
    local_revision, remote_next, ManagerModel, Phase,
};
use crate::pad::{replay, Pad, PadModel};
use crate::revision::{revisions_view, Revision};
use crate::semantics::apply;
use crate::retry::backoff;
use crate::ws::{
    acked_next, failed_next, flush_next, flush_send, rebased_next, SendRetry, WsModel,
};
use vstd::prelude::*;

verus! {

/// What a message from the server holds.
pub enum ServerRevisionWSDataType {
    /// The server has taken the revisions up to this id.
    ServerAck(u64),
    /// The server pushes a revision.
    ServerPushRev(Revision),
    /// The server sees the user connected; it reports its latest revision
    /// and the checksum of its state there.
    UserConnect(u64, String),
    /// Something beside the revisions, to be passed on as it is.
    Passthrough(Vec<u8>),
}

/// A message from the server for one object.
pub struct ServerRevisionWSData {
    pub object_id: String,
    pub ty: ServerRevisionWSDataType,
}

/// What the editor asks of its surroundings after a message or an edit.
pub struct EditorOutput {
    /// The revisions to transmit now, oldest first.
    pub send: Vec<Revision>,
    /// A payload to pass on beside the revisions.
    pub passthrough: Option<Vec<u8>>,
    /// Whether the folder has changed, so that its users are to be told.
    pub changed: bool,
    /// Whether the session has just diverged, so that a resync is due.
    pub resync: bool,
}

/// The editor of one folder.
pub struct FolderEditor {
    core: EditorCore,
}

impl FolderEditor {
    /// The pad belongs to the manager at all times.
    #[verifier::type_invariant]
    spec fn inv(&self) -> bool {
        self.core.wf()
    }

    /// The folder's id.
    pub closed spec fn spec_folder_id(&self) -> Seq<char> {
        self.core.spec_folder_id()
    }

    /// The model of the pad.
    pub closed spec fn pad(&self) -> PadModel {
        self.core.pad()
    }

    /// The model of the revision manager.
    pub closed spec fn manager(&self) -> ManagerModel {
        self.core.manager()
    }

    /// The model of the sync manager.
    pub closed spec fn ws(&self) -> WsModel {
        self.core.ws()
    }

    /// Takes the parts out for a step and leaves blank ones.
    fn take_core(&mut self) -> (core: EditorCore)
        ensures
            core.wf(),
            core.spec_folder_id() == old(self).spec_folder_id(),
            core.pad() == old(self).pad(),
            core.manager() == old(self).manager(),
            core.ws() == old(self).ws(),
            final(self).spec_folder_id() == Seq::<char>::empty(),
            final(self).pad() == PadModel::empty(),
            final(self).ws() == WsModel::down(),
            final(self).manager() == (ManagerModel { phase: Phase::Ready, ..ManagerModel::blank() }),
    {
        proof {
            use_type_invariant(&*self);
        }
        let mut core = EditorCore::blank();
        core::mem::swap(&mut self.core, &mut core);
        core
    }

    /// Puts the parts back after a step.
    fn put_core(&mut self, core: EditorCore)
        requires
            core.wf(),
        ensures
            final(self).spec_folder_id() == core.spec_folder_id(),
            final(self).pad() == core.pad(),
            final(self).manager() == core.manager(),
            final(self).ws() == core.ws(),
    {
        self.core = core;
    }

    /// Opens the folder `folder_id` for `user_id`: the pad is rebuilt from
    /// the log that was kept, or where that is empty from the history that
    /// the cloud gave. A history that has gaps or does not replay is refused.
    pub fn new(user_id: &str, folder_id: &str, cache: RevisionCache, cloud_history: Vec<Revision>) -> (r:
        Result<Self, ErrorCode>)
        ensures
            ({
                let history = if cache@.len() > 0 {
                    cache@
                } else {
                    revisions_view(cloud_history@)
                };
                if !gapless(history) {
                    r matches Err(e) && e == ErrorCode::OutOfOrder
                } else {
                    match replay(history) {
                        Err(e) => r matches Err(f) && f == e,
                        Ok(pad) => {
                            &&& r is Ok
                            &&& r->Ok_0.spec_folder_id() == folder_id@
                            &&& r->Ok_0.pad() == pad
                            &&& r->Ok_0.ws() == WsModel::down()
                            &&& r->Ok_0.manager() == (ManagerModel {
                                object_id: folder_id@,
                                user_id: user_id@,
                                phase: Phase::Ready,
                                rebased: false,
                                counter: pad.rev_id,
                                log: history,
                                base: pad,
                                pending: Seq::empty(),
                                buffered: Seq::empty(),
                                gap_retries: 0,
                            })
                        },
                    }
                }
            }),
    {
        match EditorCore::new(user_id, folder_id, cache, cloud_history) {
            Ok(core) => Ok(FolderEditor { core }),
            Err(e) => Err(e),
        }
    }

    /// The folder's id.
    pub fn folder_id(&self) -> (id: &str)
        ensures
            id@ == self.spec_folder_id(),
    {
        proof {
            use_type_invariant(self);
        }
        self.core.folder_id()
    }

    /// The pad. It belongs to the manager at all times.
    pub fn folder(&self) -> (pad: &Pad)
        ensures
            pad@ == self.pad(),
            self.manager().tracks(self.pad()),
            self.manager().object_id == self.spec_folder_id(),
    {
        proof {
            use_type_invariant(self);
            self.core.lemma_wf();
        }
        self.core.folder()
    }

    /// The revision manager.
    pub fn rev_manager(&self) -> (m: &RevisionManager)
        ensures
            m@ == self.manager(),
    {
        proof {
            use_type_invariant(self);
        }
        self.core.rev_manager()
    }

    /// Applies a local change to the folder and hands out what is to be
    /// transmitted. A failure to reach the server never makes the change
    /// fail: what cannot be sent now stays pending.
    pub fn apply_change(&mut self, delta: &Delta) -> (r: Result<EditorOutput, ErrorCode>)
        ensures
            final(self).spec_folder_id() == old(self).spec_folder_id(),
            final(self).manager() == apply_local_next(
                old(self).manager(),
                delta@,
                old(self).pad().text,
            ),
            match apply_local_error(old(self).manager(), delta@) {
                Some(e) => {
                    &&& r matches Err(f) && f == e
                    &&& final(self).pad() == old(self).pad()
                    &&& final(self).ws() == old(self).ws()
                },
                None => {
                    let rev = local_revision(old(self).manager(), delta@, old(self).pad().text);
                    &&& r is Ok
                    &&& final(self).pad() == (PadModel {
                        text: apply(delta@, old(self).pad().text),
                        rev_id: rev.rev_id,
                    })
                    &&& revisions_view(r->Ok_0.send@) == flush_send(
                        old(self).ws(),
                        final(self).manager(),
                    )
                    &&& final(self).ws() == flush_next(old(self).ws(), final(self).manager())
                    &&& r->Ok_0.passthrough is None
                    &&& r->Ok_0.changed
                    &&& !r->Ok_0.resync
                },
            },
    {
        let mut core = self.take_core();
        let r = core.apply_change(delta);
        self.put_core(core);
        r
    }

    /// The channel went down.
    pub fn disconnected(&mut self)
        ensures
            final(self).spec_folder_id() == old(self).spec_folder_id(),
            final(self).pad() == old(self).pad(),
            final(self).manager() == old(self).manager(),
            final(self).ws() == WsModel::down(),
    {
        let mut core = self.take_core();
        let r = core.disconnected();
        self.put_core(core);
        r
    }

    /// The transport could not deliver what was handed out. While the
    /// failures in a row are few, the oldest pending revision is handed out
    /// again, to be sent after the delay given; after that sending rests and
    /// the transport failure is reported. The pending queue is never dropped.
    pub fn send_failed(&mut self) -> (r: Result<SendRetry, ErrorCode>)
        ensures
            final(self).spec_folder_id() == old(self).spec_folder_id(),
            final(self).pad() == old(self).pad(),
            final(self).manager() == old(self).manager(),
            ({
                let ws = failed_next(old(self).ws());
                if ws.is_stalled() {
                    &&& r matches Err(e) && e == ErrorCode::TransportFailure
                    &&& final(self).ws() == ws
                } else {
                    &&& r is Ok
                    &&& revisions_view(r->Ok_0.send@) == flush_send(ws, old(self).manager())
                    &&& r->Ok_0.delay_ms == backoff(ws.failures as nat)
                    &&& final(self).ws() == flush_next(ws, old(self).manager())
                }
            }),
    {
        let mut core = self.take_core();
        let r = core.send_failed();
        self.put_core(core);
        r
    }

    /// Closes the session, if it may be closed: when no local revision waits
    /// for its acknowledgment, or when the session is abandoned. A session
    /// that closes stops transmitting. It says whether the session closed;
    /// one that did not goes on until its queue is flushed.
    pub fn close(&mut self, abandon: bool) -> (closed: bool)
        ensures
            final(self).spec_folder_id() == old(self).spec_folder_id(),
            final(self).pad() == old(self).pad(),
            final(self).manager() == old(self).manager(),
            closed == (abandon || old(self).manager().pending.len() == 0),
            final(self).ws() == if closed {
                WsModel::down()
            } else {
                old(self).ws()
            },
    {
        let mut core = self.take_core();
        let r = core.close(abandon);
        self.put_core(core);
        r
    }

    /// Takes a message from the server. A message for another object is
    /// refused as a transport failure and changes nothing. A payload beside
    /// the revisions is passed on and touches neither pad nor manager.
    pub fn receive_ws_data(&mut self, data: ServerRevisionWSData) -> (r: Result<
        EditorOutput,
        ErrorCode,
    >)
        ensures
            final(self).spec_folder_id() == old(self).spec_folder_id(),
            r is Ok <==> data.object_id@ == old(self).spec_folder_id(),
            r matches Err(e) ==> {
                &&& e == ErrorCode::TransportFailure
                &&& final(self).pad() == old(self).pad()
                &&& final(self).manager() == old(self).manager()
                &&& final(self).ws() == old(self).ws()
            },
            r matches Ok(out) ==> match data.ty {
                ServerRevisionWSDataType::Passthrough(bytes) => {
                    &&& out.passthrough == Some(bytes)
                    &&& out.send@.len() == 0
                    &&& !out.changed
                    &&& !out.resync
                    &&& final(self).pad() == old(self).pad()
                    &&& final(self).manager() == old(self).manager()
                    &&& final(self).ws() == old(self).ws()
                },
                ServerRevisionWSDataType::UserConnect(rev_id, checksum) => {
                    let next = confirm_next(old(self).manager(), rev_id, checksum@);
                    &&& out.passthrough is None
                    &&& final(self).manager() == next
                    &&& final(self).pad() == old(self).pad()
                    &&& !out.changed
                    &&& out.resync == (next.phase == Phase::Diverged && old(self).manager().phase
                        == Phase::Ready)
                    &&& revisions_view(out.send@) == flush_send(WsModel::up(), next)
                    &&& final(self).ws() == flush_next(WsModel::up(), next)
                },
                ServerRevisionWSDataType::ServerAck(rev_id) => {
                    let first = ack_next(old(self).manager(), rev_id);
                    let last = drained(first, old(self).pad(), first.buffered.len());
                    let ws = rebased_next(
                        acked_next(old(self).ws(), ack_count(old(self).manager(), rev_id)),
                        old(self).manager(),
                        last.0,
                    );
                    &&& out.passthrough is None
                    &&& final(self).manager() == last.0
                    &&& final(self).pad() == last.1
                    &&& out.changed == (last.1.rev_id != old(self).pad().rev_id)
                    &&& out.resync == (last.0.phase == Phase::Diverged && old(
                        self,
                    ).manager().phase == Phase::Ready)
                    &&& revisions_view(out.send@) == flush_send(ws, last.0)
                    &&& final(self).ws() == flush_next(ws, last.0)
                },
                ServerRevisionWSDataType::ServerPushRev(revision) => {
                    let first = remote_next(old(self).manager(), old(self).pad(), revision@);
                    let last = drained(first.0, first.1, first.0.buffered.len());
                    let ws = rebased_next(old(self).ws(), old(self).manager(), last.0);
                    &&& out.passthrough is None
                    &&& final(self).manager() == last.0
                    &&& final(self).pad() == last.1
                    &&& out.changed == (last.1.rev_id != old(self).pad().rev_id)
                    &&& out.resync == (last.0.phase == Phase::Diverged && old(
                        self,
                    ).manager().phase == Phase::Ready)
                    &&& revisions_view(out.send@) == flush_send(ws, last.0)
                    &&& final(self).ws() == flush_next(ws, last.0)
                },
            },
    {
        let mut core = self.take_core();
        let r = core.receive_ws_data(data);
        self.put_core(core);
        r
    }
}

} // verus!
