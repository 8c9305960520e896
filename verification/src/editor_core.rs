//! The parts of the editor of one folder and the steps it takes, each stated
//! against the invariant that holds the parts together.

use crate::cache::{gapless, RevisionCache};
use crate::delta::Delta;
use crate::errors::ErrorCode;
use crate::manager::RevisionManager;
use crate::manager_model::{
    ack_count, ack_next, apply_local_error, apply_local_next, confirm_next, drained,
    lemma_drained_ids, local_revision, remote_next, ManagerModel, Phase,
};
use crate::pad::{replay, Pad, PadModel};
use crate::revision::{revisions_view, Revision, RevisionModel};
use crate::semantics::apply;
use crate::retry::backoff;
use crate::ws::{
    acked_next, failed_next, flush_next, flush_send, rebased_next, RevisionWebSocketManager,
    SendRetry, WsModel,
};
use crate::editor::{EditorOutput, ServerRevisionWSData, ServerRevisionWSDataType};
use vstd::prelude::*;

verus! {

/// The parts of the editor of one folder.
pub struct EditorCore {
    user_id: String,
    folder_id: String,
    folder: Pad,
    rev_manager: RevisionManager,
    ws_manager: RevisionWebSocketManager,
}

impl EditorCore {
    /// The folder's id.
    pub closed spec fn spec_folder_id(&self) -> Seq<char> {
        self.folder_id@
    }

    /// The model of the pad.
    pub closed spec fn pad(&self) -> PadModel {
        self.folder@
    }

    /// The model of the revision manager.
    pub closed spec fn manager(&self) -> ManagerModel {
        self.rev_manager@
    }

    /// The model of the sync manager.
    pub closed spec fn ws(&self) -> WsModel {
        self.ws_manager@
    }

    /// The pad belongs to the manager, and both are of this folder and user.
    pub closed spec fn wf(&self) -> bool {
        &&& self.rev_manager@.tracks(self.folder@)
        &&& self.rev_manager@.object_id == self.folder_id@
        &&& self.rev_manager@.user_id == self.user_id@
    }

    /// What `wf` holds of the models.
    pub proof fn lemma_wf(&self)
        requires
            self.wf(),
        ensures
            self.manager().tracks(self.pad()),
            self.manager().object_id == self.spec_folder_id(),
    {
    }

    /// Opens the folder `folder_id` for `user_id`: the pad is rebuilt from
    /// the log that was kept, or where that is empty from the history that
    /// the cloud gave. A history that has gaps or does not replay is refused.
    pub fn new(user_id: &str, folder_id: &str, cache: RevisionCache, cloud_history: Vec<Revision>) -> (r:
        Result<Self, ErrorCode>)
        ensures
            ({
                let history = if cache@.len() > 0 {
                    cache@
                } else {
                    revisions_view(cloud_history@)
                };
                if !gapless(history) {
                    r matches Err(e) && e == ErrorCode::OutOfOrder
                } else {
                    match replay(history) {
                        Err(e) => r matches Err(f) && f == e,
                        Ok(pad) => {
                            &&& r is Ok
                            &&& r->Ok_0.wf()
                            &&& r->Ok_0.spec_folder_id() == folder_id@
                            &&& r->Ok_0.pad() == pad
                            &&& r->Ok_0.ws() == WsModel::down()
                            &&& r->Ok_0.manager() == (ManagerModel {
                                object_id: folder_id@,
                                user_id: user_id@,
                                phase: Phase::Ready,
                                rebased: false,
                                counter: pad.rev_id,
                                log: history,
                                base: pad,
                                pending: Seq::empty(),
                                buffered: Seq::empty(),
                                gap_retries: 0,
                            })
                        },
                    }
                }
            }),
    {
        let mut rev_manager = RevisionManager::new(user_id, folder_id, cache);
        let _ = rev_manager.begin_load();
        let folder = match rev_manager.load(cloud_history) {
            Ok(pad) => pad,
            Err(e) => {
                return Err(e);
            },
        };
        Ok(
            EditorCore {
                user_id: user_id.to_owned(),
                folder_id: folder_id.to_owned(),
                folder,
                rev_manager,
                ws_manager: RevisionWebSocketManager::new(),
            },
        )
    }

    /// An editor of no folder, with nothing in it: its session is ready
    /// over an empty log, its pad is empty and its channel is down.
    pub fn blank() -> (e: Self)
        ensures
            e.wf(),
            e.spec_folder_id() == Seq::<char>::empty(),
            e.pad() == PadModel::empty(),
            e.ws() == WsModel::down(),
            e.manager() == (ManagerModel { phase: Phase::Ready, ..ManagerModel::blank() }),
    {
        let mut rev_manager = RevisionManager::new("", "", RevisionCache::new());
        let _ = rev_manager.begin_load();
        let cloud: Vec<Revision> = Vec::new();
        proof {
            assert(revisions_view(cloud@) =~= Seq::<RevisionModel>::empty());
            reveal_strlit("");
            assert(""@ =~= Seq::<char>::empty());
        }
        let folder = match rev_manager.load(cloud) {
            Ok(pad) => pad,
            Err(_) => {
                assert(false);
                Pad::new()
            },
        };
        EditorCore {
            user_id: String::new(),
            folder_id: String::new(),
            folder,
            rev_manager,
            ws_manager: RevisionWebSocketManager::new(),
        }
    }

    /// The folder's id.
    pub fn folder_id(&self) -> (id: &str)
        ensures
            id@ == self.spec_folder_id(),
    {
        self.folder_id.as_str()
    }

    /// The pad.
    pub fn folder(&self) -> (pad: &Pad)
        ensures
            pad@ == self.pad(),
    {
        &self.folder
    }

    /// The revision manager.
    pub fn rev_manager(&self) -> (m: &RevisionManager)
        requires
            self.wf(),
        ensures
            m@ == self.manager(),
    {
        &self.rev_manager
    }

    /// Applies a local change to the folder and hands out what is to be
    /// transmitted. A failure to reach the server never makes the change
    /// fail: what cannot be sent now stays pending.
    pub fn apply_change(&mut self, delta: &Delta) -> (r: Result<EditorOutput, ErrorCode>)
        requires
            old(self).wf(),
        ensures
            final(self).wf(),
            final(self).spec_folder_id() == old(self).spec_folder_id(),
            final(self).manager() == apply_local_next(
                old(self).manager(),
                delta@,
                old(self).pad().text,
            ),
            match apply_local_error(old(self).manager(), delta@) {
                Some(e) => {
                    &&& r matches Err(f) && f == e
                    &&& final(self).pad() == old(self).pad()
                    &&& final(self).ws() == old(self).ws()
                },
                None => {
                    let rev = local_revision(old(self).manager(), delta@, old(self).pad().text);
                    &&& r is Ok
                    &&& final(self).pad() == (PadModel {
                        text: apply(delta@, old(self).pad().text),
                        rev_id: rev.rev_id,
                    })
                    &&& revisions_view(r->Ok_0.send@) == flush_send(
                        old(self).ws(),
                        final(self).manager(),
                    )
                    &&& final(self).ws() == flush_next(old(self).ws(), final(self).manager())
                    &&& r->Ok_0.passthrough is None
                    &&& r->Ok_0.changed
                    &&& !r->Ok_0.resync
                },
            },
    {
        match self.folder.apply_local(&mut self.rev_manager, delta) {
            Err(e) => Err(e),
            Ok(_) => {
                let send = self.ws_manager.flush(&self.rev_manager);
                Ok(EditorOutput { send, passthrough: None, changed: true, resync: false })
            },
        }
    }

    /// The channel went down.
    pub fn disconnected(&mut self)
        requires
            old(self).wf(),
        ensures
            final(self).wf(),
            final(self).spec_folder_id() == old(self).spec_folder_id(),
            final(self).pad() == old(self).pad(),
            final(self).manager() == old(self).manager(),
            final(self).ws() == WsModel::down(),
    {
        self.ws_manager.on_disconnect();
    }

    /// The transport could not deliver what was handed out. While the
    /// failures in a row are few, the oldest pending revision is handed out
    /// again, to be sent after the delay given; after that sending rests and
    /// the transport failure is reported. The pending queue is never dropped.
    pub fn send_failed(&mut self) -> (r: Result<SendRetry, ErrorCode>)
        requires
            old(self).wf(),
        ensures
            final(self).wf(),
            final(self).spec_folder_id() == old(self).spec_folder_id(),
            final(self).pad() == old(self).pad(),
            final(self).manager() == old(self).manager(),
            ({
                let ws = failed_next(old(self).ws());
                if ws.is_stalled() {
                    &&& r matches Err(e) && e == ErrorCode::TransportFailure
                    &&& final(self).ws() == ws
                } else {
                    &&& r is Ok
                    &&& revisions_view(r->Ok_0.send@) == flush_send(ws, old(self).manager())
                    &&& r->Ok_0.delay_ms == backoff(ws.failures as nat)
                    &&& final(self).ws() == flush_next(ws, old(self).manager())
                }
            }),
    {
        self.ws_manager.on_send_failed(&self.rev_manager)
    }

    /// Closes the session, if it may be closed: when no local revision waits
    /// for its acknowledgment, or when the session is abandoned. A session
    /// that closes stops transmitting. It says whether the session closed;
    /// one that did not goes on until its queue is flushed.
    pub fn close(&mut self, abandon: bool) -> (closed: bool)
        requires
            old(self).wf(),
        ensures
            final(self).wf(),
            final(self).spec_folder_id() == old(self).spec_folder_id(),
            final(self).pad() == old(self).pad(),
            final(self).manager() == old(self).manager(),
            closed == (abandon || old(self).manager().pending.len() == 0),
            final(self).ws() == if closed {
                WsModel::down()
            } else {
                old(self).ws()
            },
    {
        if abandon || self.rev_manager.pending_len() == 0 {
            self.ws_manager.on_disconnect();
            true
        } else {
            false
        }
    }

    /// Takes a message from the server. A message for another object is
    /// refused as a transport failure and changes nothing. A payload beside
    /// the revisions is passed on and touches neither pad nor manager.
    pub fn receive_ws_data(&mut self, data: ServerRevisionWSData) -> (r: Result<
        EditorOutput,
        ErrorCode,
    >)
        requires
            old(self).wf(),
        ensures
            final(self).wf(),
            final(self).spec_folder_id() == old(self).spec_folder_id(),
            r is Ok <==> data.object_id@ == old(self).spec_folder_id(),
            r matches Err(e) ==> {
                &&& e == ErrorCode::TransportFailure
                &&& final(self).pad() == old(self).pad()
                &&& final(self).manager() == old(self).manager()
                &&& final(self).ws() == old(self).ws()
            },
            r matches Ok(out) ==> match data.ty {
                ServerRevisionWSDataType::Passthrough(bytes) => {
                    &&& out.passthrough == Some(bytes)
                    &&& out.send@.len() == 0
                    &&& !out.changed
                    &&& !out.resync
                    &&& final(self).pad() == old(self).pad()
                    &&& final(self).manager() == old(self).manager()
                    &&& final(self).ws() == old(self).ws()
                },
                ServerRevisionWSDataType::UserConnect(rev_id, checksum) => {
                    let next = confirm_next(old(self).manager(), rev_id, checksum@);
                    &&& out.passthrough is None
                    &&& final(self).manager() == next
                    &&& final(self).pad() == old(self).pad()
                    &&& !out.changed
                    &&& out.resync == (next.phase == Phase::Diverged && old(self).manager().phase
                        == Phase::Ready)
                    &&& revisions_view(out.send@) == flush_send(WsModel::up(), next)
                    &&& final(self).ws() == flush_next(WsModel::up(), next)
                },
                ServerRevisionWSDataType::ServerAck(rev_id) => {
                    let first = ack_next(old(self).manager(), rev_id);
                    let last = drained(first, old(self).pad(), first.buffered.len());
                    let ws = rebased_next(
                        acked_next(old(self).ws(), ack_count(old(self).manager(), rev_id)),
                        old(self).manager(),
                        last.0,
                    );
                    &&& out.passthrough is None
                    &&& final(self).manager() == last.0
                    &&& final(self).pad() == last.1
                    &&& out.changed == (last.1.rev_id != old(self).pad().rev_id)
                    &&& out.resync == (last.0.phase == Phase::Diverged && old(
                        self,
                    ).manager().phase == Phase::Ready)
                    &&& revisions_view(out.send@) == flush_send(ws, last.0)
                    &&& final(self).ws() == flush_next(ws, last.0)
                },
                ServerRevisionWSDataType::ServerPushRev(revision) => {
                    let first = remote_next(old(self).manager(), old(self).pad(), revision@);
                    let last = drained(first.0, first.1, first.0.buffered.len());
                    let ws = rebased_next(old(self).ws(), old(self).manager(), last.0);
                    &&& out.passthrough is None
                    &&& final(self).manager() == last.0
                    &&& final(self).pad() == last.1
                    &&& out.changed == (last.1.rev_id != old(self).pad().rev_id)
                    &&& out.resync == (last.0.phase == Phase::Diverged && old(
                        self,
                    ).manager().phase == Phase::Ready)
                    &&& revisions_view(out.send@) == flush_send(ws, last.0)
                    &&& final(self).ws() == flush_next(ws, last.0)
                },
            },
    {
        if data.object_id != self.folder_id {
            return Err(ErrorCode::TransportFailure);
        }
        match data.ty {
            ServerRevisionWSDataType::Passthrough(bytes) => Ok(
                EditorOutput {
                    send: Vec::new(),
                    passthrough: Some(bytes),
                    changed: false,
                    resync: false,
                },
            ),
            ServerRevisionWSDataType::UserConnect(rev_id, checksum) => {
                let out = self.ws_manager.on_connect(
                    &mut self.rev_manager,
                    &self.folder,
                    rev_id,
                    &checksum,
                );
                Ok(
                    EditorOutput {
                        send: out.send,
                        passthrough: None,
                        changed: out.changed,
                        resync: out.resync,
                    },
                )
            },
            ServerRevisionWSDataType::ServerAck(rev_id) => {
                proof {
                    let first = ack_next(self.rev_manager@, rev_id);
                    lemma_drained_ids(first, self.folder@, first.buffered.len());
                }
                let out = self.ws_manager.on_ack(&mut self.rev_manager, &mut self.folder, rev_id);
                Ok(
                    EditorOutput {
                        send: out.send,
                        passthrough: None,
                        changed: out.changed,
                        resync: out.resync,
                    },
                )
            },
            ServerRevisionWSDataType::ServerPushRev(revision) => {
                proof {
                    let first = remote_next(self.rev_manager@, self.folder@, revision@);
                    lemma_drained_ids(first.0, first.1, first.0.buffered.len());
                }
                let out = self.ws_manager.on_server_revision(
                    &mut self.rev_manager,
                    &mut self.folder,
                    &revision,
                );
                Ok(
                    EditorOutput {
                        send: out.send,
                        passthrough: None,
                        changed: out.changed,
                        resync: out.resync,
                    },
                )
            },
        }
    }
}

} // verus!
