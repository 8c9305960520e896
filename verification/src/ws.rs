//! The decisions of the web socket sync manager: what to transmit and when,
//! for one object. The transport itself is outside; it reports what happened
//! and carries out what is decided here.
//!
//! The pending queue goes out one revision at a time, the oldest first, and
//! the next one follows when the server has acknowledged it. So a revision
//! that the server takes always starts at the state that the server holds:
//! the oldest pending revision starts at the confirmed revision, and the
//! server takes it only while that is its latest.

use crate::errors::ErrorCode;
use crate::manager::RevisionManager;
use crate::manager_model::{
    ack_count, ack_next, confirm_error, confirm_next, drained, remote_error, remote_next,
    ManagerModel, Phase,
};
use crate::pad::Pad;
use crate::retry::{backoff, backoff_delay, MAX_ATTEMPTS};
use crate::revision::{revisions_view, Revision, RevisionModel};
use vstd::prelude::*;

verus! {

/// The model of the sync manager.
pub struct WsModel {
    /// Whether the channel is up.
    pub connected: bool,
    /// Whether the oldest pending revision was handed to the transport and
    /// is neither acknowledged nor reported lost.
    pub awaiting: bool,
    /// How many times in a row the transport could not deliver.
    pub failures: u32,
}

impl WsModel {
    /// The manager of a channel that is down.
    pub open spec fn down() -> WsModel {
        WsModel { connected: false, awaiting: false, failures: 0 }
    }

    /// The manager of a channel that has just come up.
    pub open spec fn up() -> WsModel {
        WsModel { connected: true, awaiting: false, failures: 0 }
    }

    /// Whether the transport has failed so often in a row that sending
    /// rests until the channel comes up anew or the server acknowledges.
    pub open spec fn is_stalled(self) -> bool {
        self.failures >= MAX_ATTEMPTS
    }

    /// Whether revisions are handed out: the channel is up and not stalled.
    pub open spec fn sends(self) -> bool {
        self.connected && !self.is_stalled()
    }
}

/// Whether the oldest pending revision is to be handed out now: there is
/// one, none is on its way, the channel is up and not stalled, and the
/// session is ready.
pub open spec fn flushes(ws: WsModel, m: ManagerModel) -> bool {
    ws.sends() && m.is_ready() && !ws.awaiting && m.pending.len() > 0
}

/// The revisions to transmit now: the oldest pending revision, or none.
pub open spec fn flush_send(ws: WsModel, m: ManagerModel) -> Seq<RevisionModel> {
    if flushes(ws, m) {
        seq![m.pending[0].revision]
    } else {
        Seq::empty()
    }
}

/// The sync manager after it handed out what `flush_send` names.
pub open spec fn flush_next(ws: WsModel, m: ManagerModel) -> WsModel {
    if flushes(ws, m) {
        WsModel { awaiting: true, ..ws }
    } else {
        ws
    }
}

/// The sync manager after the server confirmed `n` pending revisions. A
/// confirmation shows that the transport delivers again.
pub open spec fn acked_next(ws: WsModel, n: nat) -> WsModel {
    if n > 0 {
        WsModel { awaiting: false, failures: 0, ..ws }
    } else {
        ws
    }
}

/// The sync manager after the transport could not deliver: nothing counts
/// as on its way, and one more failure is counted.
pub open spec fn failed_next(ws: WsModel) -> WsModel {
    WsModel {
        awaiting: false,
        failures: if ws.failures < u32::MAX {
            (ws.failures + 1) as u32
        } else {
            ws.failures
        },
        ..ws
    }
}

/// The sync manager after a server revision took the manager from `before`
/// to `after`: where the confirmed revision has moved, the oldest pending
/// revision is another one or was rebased, and is to be sent.
pub open spec fn rebased_next(ws: WsModel, before: ManagerModel, after: ManagerModel) -> WsModel {
    if after.base.rev_id != before.base.rev_id {
        WsModel { awaiting: false, ..ws }
    } else {
        ws
    }
}

/// What follows from a server revision.
pub struct ServerRevisionOutcome {
    /// Why the revision itself was refused, if it was.
    pub error: Option<ErrorCode>,
    /// The pending revisions to transmit now, oldest first.
    pub send: Vec<Revision>,
    /// Whether the pad has changed, so that its users are to be told.
    pub changed: bool,
    /// Whether the session has just diverged, so that a resync is due.
    pub resync: bool,
}

/// What to send again after the transport could not deliver, and when.
pub struct SendRetry {
    /// The pending revisions to transmit, oldest first.
    pub send: Vec<Revision>,
    /// How long to wait before transmitting, in milliseconds.
    pub delay_ms: u64,
}

/// The sync manager of one object.
pub struct RevisionWebSocketManager {
    connected: bool,
    awaiting: bool,
    failures: u32,
}

impl View for RevisionWebSocketManager {
    type V = WsModel;

    closed spec fn view(&self) -> WsModel {
        WsModel { connected: self.connected, awaiting: self.awaiting, failures: self.failures }
    }
}

impl RevisionWebSocketManager {
    /// A sync manager whose channel is down.
    pub fn new() -> (ws: Self)
        ensures
            ws@ == WsModel::down(),
    {
        RevisionWebSocketManager { connected: false, awaiting: false, failures: 0 }
    }

    /// Whether the channel is up.
    pub fn is_connected(&self) -> (b: bool)
        ensures
            b == self@.connected,
    {
        self.connected
    }

    /// Whether sending rests because the transport failed too often in a row.
    pub fn is_stalled(&self) -> (b: bool)
        ensures
            b == self@.is_stalled(),
    {
        self.failures >= MAX_ATTEMPTS
    }

    /// Hands out the oldest pending revision, unless it is on its way
    /// already. Nothing is handed out while the channel is down or stalled or
    /// the session is not ready. To be called after each local edit.
    pub fn flush(&mut self, manager: &RevisionManager) -> (send: Vec<Revision>)
        ensures
            revisions_view(send@) == flush_send(old(self)@, manager@),
            final(self)@ == flush_next(old(self)@, manager@),
    {
        let mut send: Vec<Revision> = Vec::new();
        if self.connected && self.failures < MAX_ATTEMPTS && manager.is_ready() && !self.awaiting {
            match manager.oldest_pending() {
                Some(revision) => {
                    send.push(revision);
                    self.awaiting = true;
                    assert(revisions_view(send@) =~= seq![manager@.pending[0].revision]);
                },
                None => {
                    assert(revisions_view(send@) =~= Seq::<RevisionModel>::empty());
                },
            }
        } else {
            assert(revisions_view(send@) =~= Seq::<RevisionModel>::empty());
        }
        send
    }

    /// The channel came up, and the server reported its latest revision and
    /// the checksum of its state there: the manager takes the report, as
    /// `confirm_error` and `confirm_next` say, and the pending queue goes
    /// out anew, from its oldest revision on.
    pub fn on_connect(
        &mut self,
        manager: &mut RevisionManager,
        pad: &Pad,
        rev_id: u64,
        checksum: &String,
    ) -> (out: ServerRevisionOutcome)
        requires
            old(manager)@.tracks(pad@),
        ensures
            final(manager)@.tracks(pad@),
            final(manager)@ == confirm_next(old(manager)@, rev_id, checksum@),
            out.error == confirm_error(old(manager)@, rev_id, checksum@),
            !out.changed,
            out.resync == (final(manager)@.phase == Phase::Diverged && old(manager)@.phase
                == Phase::Ready),
            revisions_view(out.send@) == flush_send(WsModel::up(), final(manager)@),
            final(self)@ == flush_next(WsModel::up(), final(manager)@),
    {
        let was_ready = manager.is_ready();
        self.connected = true;
        self.awaiting = false;
        self.failures = 0;
        let error = match manager.confirm(pad, rev_id, checksum) {
            Ok(()) => None,
            Err(e) => Some(e),
        };
        let send = self.flush(manager);
        ServerRevisionOutcome {
            error,
            send,
            changed: false,
            resync: was_ready && manager.is_diverged(),
        }
    }

    /// The channel went down: transmission rests, and nothing counts as on
    /// its way any more. The pending queue is not touched.
    pub fn on_disconnect(&mut self)
        ensures
            final(self)@ == WsModel::down(),
    {
        self.connected = false;
        self.awaiting = false;
        self.failures = 0;
    }

    /// The transport could not deliver. The pending queue stays as it is.
    /// While the failures in a row are fewer than the attempts allowed, the
    /// oldest pending revision is handed out again, to be sent after a delay
    /// that grows with each failure. After that sending rests, and the
    /// failure is reported as a transport failure.
    pub fn on_send_failed(&mut self, manager: &RevisionManager) -> (r: Result<SendRetry, ErrorCode>)
        ensures
            ({
                let ws = failed_next(old(self)@);
                if ws.is_stalled() {
                    &&& r matches Err(e) && e == ErrorCode::TransportFailure
                    &&& final(self)@ == ws
                } else {
                    &&& r is Ok
                    &&& revisions_view(r->Ok_0.send@) == flush_send(ws, manager@)
                    &&& r->Ok_0.delay_ms == backoff(ws.failures as nat)
                    &&& final(self)@ == flush_next(ws, manager@)
                }
            }),
    {
        self.awaiting = false;
        if self.failures < u32::MAX {
            self.failures = self.failures + 1;
        }
        if self.failures >= MAX_ATTEMPTS {
            return Err(ErrorCode::TransportFailure);
        }
        let delay_ms = backoff_delay(self.failures);
        let send = self.flush(manager);
        Ok(SendRetry { send, delay_ms })
    }

    /// The server acknowledged `rev_id`: the manager drops the confirmed
    /// revisions from its queue, then receives again what waited in its
    /// buffer and is held back no more, and the next pending revision is
    /// handed out.
    pub fn on_ack(&mut self, manager: &mut RevisionManager, pad: &mut Pad, rev_id: u64) -> (out:
        ServerRevisionOutcome)
        requires
            old(manager)@.tracks(old(pad)@),
        ensures
            final(manager)@.tracks(final(pad)@),
            out.error is None,
            ({
                let first = ack_next(old(manager)@, rev_id);
                let last = drained(first, old(pad)@, first.buffered.len());
                let ws = rebased_next(
                    acked_next(old(self)@, ack_count(old(manager)@, rev_id)),
                    old(manager)@,
                    last.0,
                );
                &&& final(manager)@ == last.0
                &&& final(pad)@ == last.1
                &&& out.changed == (last.1.rev_id != old(pad)@.rev_id)
                &&& out.resync == (last.0.phase == Phase::Diverged && old(manager)@.phase
                    == Phase::Ready)
                &&& revisions_view(out.send@) == flush_send(ws, last.0)
                &&& final(self)@ == flush_next(ws, last.0)
            }),
    {
        let was_ready = manager.is_ready();
        let acked = manager.acked_rev_id();
        let before = pad.rev_id();
        let n = manager.ack(rev_id);
        let _ = manager.drain_buffer(pad);
        if n > 0 {
            self.failures = 0;
        }
        if n > 0 || manager.acked_rev_id() != acked {
            self.awaiting = false;
        }
        let send = self.flush(manager);
        ServerRevisionOutcome {
            error: None,
            send,
            changed: pad.rev_id() != before,
            resync: was_ready && manager.is_diverged(),
        }
    }

    /// The server sent a revision: the manager receives it, then receives
    /// again what waited in its buffer and is held back no more. Where the
    /// confirmed revision has moved, the oldest pending revision is handed
    /// out.
    pub fn on_server_revision(
        &mut self,
        manager: &mut RevisionManager,
        pad: &mut Pad,
        revision: &Revision,
    ) -> (out: ServerRevisionOutcome)
        requires
            old(manager)@.tracks(old(pad)@),
        ensures
            final(manager)@.tracks(final(pad)@),
            out.error == remote_error(old(manager)@, revision@),
            ({
                let first = remote_next(old(manager)@, old(pad)@, revision@);
                let last = drained(first.0, first.1, first.0.buffered.len());
                let ws = rebased_next(old(self)@, old(manager)@, last.0);
                &&& final(manager)@ == last.0
                &&& final(pad)@ == last.1
                &&& out.changed == (last.1.rev_id != old(pad)@.rev_id)
                &&& out.resync == (last.0.phase == Phase::Diverged && old(manager)@.phase
                    == Phase::Ready)
                &&& revisions_view(out.send@) == flush_send(ws, last.0)
                &&& final(self)@ == flush_next(ws, last.0)
            }),
    {
        let was_ready = manager.is_ready();
        let acked = manager.acked_rev_id();
        let rev_id = pad.rev_id();
        let error = match manager.receive_remote_revision(pad, revision) {
            Ok(()) => None,
            Err(e) => Some(e),
        };
        let _ = manager.drain_buffer(pad);
        if manager.acked_rev_id() != acked {
            self.awaiting = false;
        }
        let send = self.flush(manager);
        ServerRevisionOutcome {
            error,
            send,
            changed: pad.rev_id() != rev_id,
            resync: was_ready && manager.is_diverged(),
        }
    }
}

} // verus!
