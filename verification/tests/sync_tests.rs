use folder_sync::cache::RevisionCache;
use folder_sync::checksum::{checksum_of, fnv1a_hash};
use folder_sync::delta::Delta;
use folder_sync::editor::{FolderEditor, ServerRevisionWSData, ServerRevisionWSDataType};
use folder_sync::errors::ErrorCode;
use folder_sync::manager::RevisionManager;
use folder_sync::manager_model::SyncState;
use folder_sync::op::PlainTextAttributes;
use folder_sync::pad::Pad;
use folder_sync::revision::Revision;
use folder_sync::ws::RevisionWebSocketManager;

const FOLDER: &str = "folder-1";

fn attrs() -> PlainTextAttributes {
    PlainTextAttributes {}
}

/// The delta that puts `s` at `pos` into a text of `len` characters.
fn insert_at(len: usize, pos: usize, s: &str) -> Delta {
    let mut d = Delta::new();
    d.retain(pos, attrs());
    d.insert(s, attrs());
    d.retain(len - pos, attrs());
    d
}

/// The revision `base + 1` that the server makes of `delta` on `text`, and the text after it.
fn server_revision(base: u64, text: &str, delta: &Delta, author: &str) -> (Revision, String) {
    let after = delta.apply(text).unwrap();
    let rev = Revision::new(
        FOLDER,
        base,
        base + 1,
        delta.to_bytes(),
        author,
        checksum_of(after.as_bytes()),
    );
    (rev, after)
}

/// A history of `n` revisions; revision `i` appends the `i`-th letter.
fn history(n: u64) -> (Vec<Revision>, String) {
    let mut text = String::new();
    let mut revs = Vec::new();
    for i in 0..n {
        let letter = ((b'a' + (i % 26) as u8) as char).to_string();
        let delta = insert_at(text.chars().count(), text.chars().count(), &letter);
        let (rev, after) = server_revision(i, &text, &delta, "server");
        revs.push(rev);
        text = after;
    }
    (revs, text)
}

/// A manager and its pad, loaded from the cloud with a history of `n` revisions.
fn open_at(n: u64) -> (RevisionManager, Pad, String) {
    let (revs, text) = history(n);
    let mut manager = RevisionManager::new("me", FOLDER, RevisionCache::new());
    assert_eq!(manager.state(), SyncState::Uninitialized);
    assert_eq!(manager.begin_load(), Ok(true));
    assert_eq!(manager.state(), SyncState::Loading);
    let pad = manager.load(revs).unwrap();
    assert_eq!(manager.state(), SyncState::Synced);
    (manager, pad, text)
}

fn editor_at(n: u64) -> (FolderEditor, String) {
    let (revs, text) = history(n);
    let editor = FolderEditor::new("me", FOLDER, RevisionCache::new(), revs).unwrap();
    (editor, text)
}

fn message(ty: ServerRevisionWSDataType) -> ServerRevisionWSData {
    ServerRevisionWSData { object_id: FOLDER.to_string(), ty }
}

/// The server's word when the channel comes up: its latest revision and
/// the checksum of its text there.
fn connected(rev_id: u64, text: &str) -> ServerRevisionWSData {
    message(ServerRevisionWSDataType::UserConnect(rev_id, checksum_of(text.as_bytes())))
}

fn ids(revs: &[Revision]) -> Vec<(u64, u64)> {
    revs.iter().map(|r| (r.base_rev_id, r.rev_id)).collect()
}

#[test]
fn checksum_is_fnv1a_in_hex() {
    assert_eq!(fnv1a_hash(b""), 0xcbf29ce484222325);
    assert_eq!(fnv1a_hash(b"a"), 0xaf63dc4c8601ec8c);
    assert_eq!(fnv1a_hash(b"foobar"), 0x85944171f73967e8);
    assert_eq!(checksum_of(b""), "cbf29ce484222325");
    assert_eq!(checksum_of(b"a"), "af63dc4c8601ec8c");
    assert_eq!(checksum_of(b"foobar"), "85944171f73967e8");
}

#[test]
fn cache_appends_without_gaps() {
    let (revs, _) = history(3);
    let mut cache = RevisionCache::new();
    assert_eq!(cache.latest(), None);
    assert_eq!(cache.append(revs[1].clone()), Err(ErrorCode::OutOfOrder));
    assert_eq!(cache.append(revs[0].clone()), Ok(()));
    assert_eq!(cache.append(revs[0].clone()), Err(ErrorCode::OutOfOrder));
    assert_eq!(cache.append(revs[2].clone()), Err(ErrorCode::OutOfOrder));
    assert_eq!(cache.append(revs[1].clone()), Ok(()));
    assert_eq!(cache.append(revs[2].clone()), Ok(()));
    assert_eq!(cache.latest(), Some(3));
    assert_eq!(cache.len(), 3);
}

#[test]
fn cache_reads_ranges_again_and_again() {
    let (revs, _) = history(5);
    let cache = RevisionCache::restore(revs.clone()).unwrap();
    assert_eq!(cache.read_range(2, 4).collect(&cache), revs[1..4].to_vec());
    assert_eq!(cache.read_range(2, 4).collect(&cache), revs[1..4].to_vec());
    assert_eq!(cache.read_range(4, 9).collect(&cache), revs[3..5].to_vec());
    assert_eq!(cache.read_range(1, 5).collect(&cache), revs);
    assert_eq!(cache.read_all(), revs);
    assert!(cache.read_range(0, 3).collect(&cache).is_empty());
    assert!(cache.read_range(4, 3).collect(&cache).is_empty());
    assert!(cache.read_range(6, 8).collect(&cache).is_empty());
}

#[test]
fn a_range_gives_one_entry_at_a_time_and_starts_again() {
    let (revs, _) = history(4);
    let mut cache = RevisionCache::restore(revs[..3].to_vec()).unwrap();
    let mut range = cache.read_range(2, 4);
    assert_eq!(range.next(&cache), Some(revs[1].clone()));
    assert_eq!(range.next(&cache), Some(revs[2].clone()));
    assert_eq!(range.next(&cache), None);
    assert_eq!(range.next(&cache), None);
    // an entry that is appended later is read when the reading gets there
    assert_eq!(cache.append(revs[3].clone()), Ok(()));
    assert_eq!(range.next(&cache), Some(revs[3].clone()));
    assert_eq!(range.next(&cache), None);
    range.restart();
    assert_eq!(range.next(&cache), Some(revs[1].clone()));
    assert_eq!(range.collect(&cache), revs[2..4].to_vec());
    assert_eq!(range.next(&cache), None);
    range.restart();
    assert_eq!(range.collect(&cache), revs[1..4].to_vec());
    let mut last = cache.read_range(u64::MAX, u64::MAX);
    assert_eq!(last.next(&cache), None);
}

#[test]
fn cache_restore_refuses_gaps() {
    let (revs, _) = history(3);
    let gap = vec![revs[0].clone(), revs[2].clone()];
    assert_eq!(RevisionCache::restore(gap).err(), Some(ErrorCode::OutOfOrder));
    assert_eq!(RevisionCache::restore(vec![revs[1].clone()]).err(), Some(ErrorCode::OutOfOrder));
    assert_eq!(RevisionCache::restore(Vec::new()).unwrap().len(), 0);
}

#[test]
fn pad_replays_a_log() {
    let (revs, text) = history(4);
    let pad = Pad::from_revisions(&revs).unwrap();
    assert_eq!(pad.text(), "abcd");
    assert_eq!(pad.text(), text);
    assert_eq!(pad.rev_id(), 4);
    assert_eq!(pad.snapshot(), b"abcd".to_vec());
    assert_eq!(pad.checksum(), checksum_of(b"abcd"));
}

#[test]
fn pad_after_two_revisions_equals_replay_of_the_log() {
    let (revs, text) = history(5);
    let mut pad = Pad::from_revisions(&revs).unwrap();
    let (r1, t1) = server_revision(5, &text, &insert_at(5, 2, "X"), "server");
    let (r2, _) = server_revision(6, &t1, &insert_at(6, 0, "Y"), "server");
    assert_eq!(pad.apply_remote(&r1), Ok(()));
    assert_eq!(pad.apply_remote(&r2), Ok(()));
    let mut log = revs.clone();
    log.push(r1);
    log.push(r2);
    let rebuilt = Pad::from_revisions(&log).unwrap();
    assert_eq!(pad.text(), "YabXcde");
    assert_eq!(rebuilt.text(), pad.text());
    assert_eq!(rebuilt.rev_id(), pad.rev_id());
    assert_eq!(rebuilt.snapshot(), pad.snapshot());
}

#[test]
fn pad_skips_a_revision_it_has_applied() {
    let (revs, text) = history(3);
    let mut pad = Pad::from_revisions(&revs).unwrap();
    let (r, _) = server_revision(3, &text, &insert_at(3, 3, "!"), "server");
    assert_eq!(pad.apply_remote(&r), Ok(()));
    assert_eq!(pad.text(), "abc!");
    assert_eq!(pad.apply_remote(&r), Ok(()));
    assert_eq!(pad.apply_remote(&revs[0]), Ok(()));
    assert_eq!(pad.text(), "abc!");
    assert_eq!(pad.rev_id(), 4);
}

#[test]
fn pad_refuses_what_does_not_apply() {
    let (revs, text) = history(3);
    let mut pad = Pad::from_revisions(&revs).unwrap();
    let (ahead, _) = server_revision(4, "abcd", &insert_at(4, 0, "x"), "server");
    assert_eq!(pad.apply_remote(&ahead), Err(ErrorCode::OutOfOrder));
    let (mut corrupt, _) = server_revision(3, &text, &insert_at(3, 0, "x"), "server");
    corrupt.delta_bytes.pop();
    assert_eq!(pad.apply_remote(&corrupt), Err(ErrorCode::MalformedDelta));
    let (wrong_len, _) = server_revision(3, "abcd", &insert_at(4, 0, "x"), "server");
    assert_eq!(pad.apply_remote(&wrong_len), Err(ErrorCode::MalformedDelta));
    let (mut wrong_sum, _) = server_revision(3, &text, &insert_at(3, 0, "x"), "server");
    wrong_sum.checksum = checksum_of(b"something else");
    assert_eq!(pad.apply_remote(&wrong_sum), Err(ErrorCode::Divergence));
    assert_eq!(pad.text(), "abc");
    assert_eq!(pad.rev_id(), 3);
}

#[test]
fn pad_replay_gives_the_first_error() {
    let (mut revs, _) = history(4);
    revs[2].checksum = checksum_of(b"nonsense");
    assert_eq!(Pad::from_revisions(&revs).err(), Some(ErrorCode::Divergence));
    let (revs, _) = history(4);
    let gap = vec![revs[0].clone(), revs[2].clone()];
    assert_eq!(Pad::from_revisions(&gap).err(), Some(ErrorCode::OutOfOrder));
}

#[test]
fn snapshot_round_trip() {
    let (manager, pad, _) = open_at(6);
    let rebuilt = Pad::from_revisions(manager.cache().revisions()).unwrap();
    assert_eq!(rebuilt.snapshot(), pad.snapshot());
    let restored = Pad::from_snapshot(&pad.snapshot(), pad.rev_id()).unwrap();
    assert_eq!(restored.text(), pad.text());
    assert_eq!(restored.rev_id(), 6);
    assert_eq!(Pad::from_snapshot(&[0xff, 0xfe], 1).err(), Some(ErrorCode::MalformedDelta));
}

#[test]
fn snapshot_round_trip_after_local_and_remote_edits() {
    let (mut manager, mut pad, text) = open_at(3);
    pad.apply_local(&mut manager, &insert_at(3, 1, "L")).unwrap();
    let (remote, _) = server_revision(3, &text, &insert_at(3, 3, "R"), "other");
    assert_eq!(manager.receive_remote_revision(&mut pad, &remote), Ok(()));
    let rebuilt = Pad::from_revisions(manager.cache().revisions()).unwrap();
    assert_eq!(rebuilt.snapshot(), pad.snapshot());
    assert_eq!(pad.text(), "aLbcR");
}

#[test]
fn load_prefers_the_log_over_the_cloud() {
    let (revs, _) = history(2);
    let cache = RevisionCache::restore(revs).unwrap();
    let mut manager = RevisionManager::new("me", FOLDER, cache);
    assert_eq!(manager.begin_load(), Ok(false));
    let (cloud, _) = history(5);
    let pad = manager.load(cloud).unwrap();
    assert_eq!(pad.text(), "ab");
    assert_eq!(manager.rev_id(), 2);
    assert_eq!(manager.begin_load(), Err(ErrorCode::OutOfOrder));
}

#[test]
fn load_refuses_a_history_that_does_not_replay() {
    let (mut cloud, _) = history(3);
    cloud[1].checksum = checksum_of(b"?");
    let mut manager = RevisionManager::new("me", FOLDER, RevisionCache::new());
    assert_eq!(manager.load(Vec::new()).err(), Some(ErrorCode::OutOfOrder));
    assert_eq!(manager.begin_load(), Ok(true));
    assert_eq!(manager.load(cloud).err(), Some(ErrorCode::Divergence));
    assert_eq!(manager.state(), SyncState::Uninitialized);
    assert_eq!(manager.begin_load(), Ok(true));
    let (cloud, _) = history(3);
    let gap = vec![cloud[0].clone(), cloud[2].clone()];
    assert_eq!(manager.load(gap).err(), Some(ErrorCode::OutOfOrder));
    assert_eq!(manager.begin_load(), Ok(true));
    assert_eq!(manager.load(Vec::new()).unwrap().text(), "");
    assert_eq!(manager.state(), SyncState::Synced);
}

#[test]
fn rev_id_pairs_follow_one_another() {
    let (mut manager, _, _) = open_at(5);
    assert_eq!(manager.next_rev_id_pair(), (5, 6));
    assert_eq!(manager.next_rev_id_pair(), (6, 7));
    assert_eq!(manager.next_rev_id_pair(), (7, 8));
}

#[test]
fn add_local_revision_takes_a_current_revision() {
    let (mut manager, _, text) = open_at(5);
    let pair = manager.next_rev_id_pair();
    let delta = insert_at(5, 5, "f");
    let after = delta.apply(&text).unwrap();
    let rev = Revision::new(FOLDER, pair.0, pair.1, delta.to_bytes(), "me", checksum_of(after.as_bytes()));
    assert_eq!(manager.add_local_revision(&rev), Ok(()));
    assert_eq!(manager.rev_id(), 6);
    assert_eq!(manager.acked_rev_id(), 5);
    assert_eq!(manager.pending_revisions(), vec![rev.clone()]);
    assert_eq!(manager.cache().latest(), Some(6));
    assert_eq!(manager.cache().read_range(6, 6).collect(manager.cache()), vec![rev]);
}

#[test]
fn add_local_revision_conflicts_on_a_stale_base() {
    let (mut manager, _, _) = open_at(5);
    let first = manager.next_rev_id_pair();
    let second = manager.next_rev_id_pair();
    assert_eq!(second, (6, 7));
    let late = Revision::new(FOLDER, second.0, second.1, insert_at(5, 0, "x").to_bytes(), "me", String::new());
    assert_eq!(manager.add_local_revision(&late), Err(ErrorCode::Conflict));
    assert_eq!(manager.pending_len(), 0);
    // a freshly reserved pair is current again
    assert_eq!(manager.next_rev_id_pair(), first);
    let retry = Revision::new(FOLDER, 5, 6, insert_at(5, 0, "x").to_bytes(), "me", String::new());
    assert_eq!(manager.add_local_revision(&retry), Ok(()));
    assert_eq!(manager.rev_id(), 6);
}

#[test]
fn add_local_revision_refuses_bad_revisions() {
    let (mut manager, _, _) = open_at(5);
    let skip = Revision::new(FOLDER, 5, 7, insert_at(5, 0, "x").to_bytes(), "me", String::new());
    assert_eq!(manager.add_local_revision(&skip), Err(ErrorCode::OutOfOrder));
    let corrupt = Revision::new(FOLDER, 5, 6, vec![b'q', 1], "me", String::new());
    assert_eq!(manager.add_local_revision(&corrupt), Err(ErrorCode::MalformedDelta));
    let misfit = Revision::new(FOLDER, 5, 6, insert_at(4, 0, "x").to_bytes(), "me", String::new());
    assert_eq!(manager.add_local_revision(&misfit), Err(ErrorCode::MalformedDelta));
    assert_eq!(manager.pending_len(), 0);
    assert_eq!(manager.rev_id(), 5);
    let mut fresh = RevisionManager::new("me", FOLDER, RevisionCache::new());
    let first = Revision::new(FOLDER, 0, 1, insert_at(0, 0, "x").to_bytes(), "me", String::new());
    assert_eq!(fresh.add_local_revision(&first), Err(ErrorCode::OutOfOrder));
}

#[test]
fn apply_local_returns_the_revision_to_send() {
    let (mut manager, mut pad, _) = open_at(5);
    let delta = insert_at(5, 2, "é");
    let rev = pad.apply_local(&mut manager, &delta).unwrap();
    assert_eq!(rev.object_id, FOLDER);
    assert_eq!(rev.author_id, "me");
    assert_eq!((rev.base_rev_id, rev.rev_id), (5, 6));
    assert_eq!(rev.delta_bytes, delta.to_bytes());
    assert_eq!(rev.checksum, checksum_of("abécde".as_bytes()));
    assert_eq!(pad.text(), "abécde");
    assert_eq!(pad.rev_id(), 6);
    assert_eq!(manager.pending_revisions(), vec![rev]);
    assert_eq!(manager.state(), SyncState::Synced);
}

#[test]
fn apply_local_refuses_a_delta_that_does_not_fit() {
    let (mut manager, mut pad, _) = open_at(5);
    assert_eq!(
        pad.apply_local(&mut manager, &insert_at(4, 0, "x")).err(),
        Some(ErrorCode::MalformedDelta)
    );
    assert_eq!(pad.text(), "abcde");
    assert_eq!(manager.rev_id(), 5);
    let _ = manager.next_rev_id_pair();
    assert_eq!(
        pad.apply_local(&mut manager, &insert_at(5, 0, "x")).err(),
        Some(ErrorCode::Conflict)
    );
    assert!(pad.apply_local(&mut manager, &insert_at(5, 0, "x")).is_ok());
}

#[test]
fn concurrent_edits_converge_in_either_order() {
    let local = insert_at(5, 2, "L");
    let remote = insert_at(5, 2, "R");
    // first client: the local edit comes first, then the server revision
    let (mut manager_x, mut pad_x, text) = open_at(5);
    let sent = pad_x.apply_local(&mut manager_x, &local).unwrap();
    assert_eq!((sent.base_rev_id, sent.rev_id), (5, 6));
    let (server_rev, server_text) = server_revision(5, &text, &remote, "other");
    assert_eq!((server_rev.base_rev_id, server_rev.rev_id), (5, 6));
    assert_eq!(manager_x.receive_remote_revision(&mut pad_x, &server_rev), Ok(()));
    // second client: the server revision comes first, then the same edit
    let (mut manager_y, mut pad_y, _) = open_at(5);
    assert_eq!(manager_y.receive_remote_revision(&mut pad_y, &server_rev), Ok(()));
    let (rebased, _) = local.transform(&remote).unwrap();
    let second = pad_y.apply_local(&mut manager_y, &rebased).unwrap();
    assert_eq!(pad_x.text(), "abLRcde");
    assert_eq!(pad_x.text(), pad_y.text());
    assert_eq!(pad_x.snapshot(), pad_y.snapshot());
    assert_eq!(pad_x.rev_id(), 7);
    assert_eq!(pad_y.rev_id(), 7);
    assert_eq!(manager_x.rev_id(), 7);
    assert_eq!(manager_y.rev_id(), 7);
    assert_eq!(manager_x.next_rev_id_pair(), (7, 8));
    assert_eq!(manager_y.next_rev_id_pair(), (7, 8));
    // the edit goes to the server under the same number and with the same content
    assert_eq!(manager_x.pending_revisions(), vec![second.clone()]);
    assert_eq!((second.base_rev_id, second.rev_id), (6, 7));
    assert_eq!(second.checksum, checksum_of(b"abLRcde"));
    assert_eq!(server_text, "abRcde");
    assert_eq!(manager_x.acked_rev_id(), 6);
    assert_eq!(manager_x.state(), SyncState::Conflicted);
    assert_eq!(manager_x.ack(7), 1);
    assert_eq!(manager_x.state(), SyncState::Synced);
}

#[test]
fn remote_revision_rebases_every_pending_revision_in_order() {
    let (mut manager, mut pad, text) = open_at(3);
    pad.apply_local(&mut manager, &insert_at(3, 0, "1")).unwrap();
    pad.apply_local(&mut manager, &insert_at(4, 4, "2")).unwrap();
    assert_eq!(pad.text(), "1abc2");
    let mut remote = Delta::new();
    remote.retain(1, attrs());
    remote.delete(1);
    remote.insert("B", attrs());
    remote.retain(1, attrs());
    let (server_rev, server_text) = server_revision(3, &text, &remote, "other");
    assert_eq!(server_text, "aBc");
    assert_eq!(manager.receive_remote_revision(&mut pad, &server_rev), Ok(()));
    assert_eq!(pad.text(), "1aBc2");
    assert_eq!(pad.rev_id(), 6);
    assert_eq!(manager.acked_rev_id(), 4);
    let pending = manager.pending_revisions();
    assert_eq!(ids(&pending), vec![(4, 5), (5, 6)]);
    assert_eq!(pending[0].checksum, checksum_of(b"1aBc"));
    assert_eq!(pending[1].checksum, checksum_of(b"1aBc2"));
    assert_eq!(Delta::from_bytes(&pending[0].delta_bytes).unwrap().apply("aBc"), Ok("1aBc".to_string()));
    assert_eq!(Delta::from_bytes(&pending[1].delta_bytes).unwrap().apply("1aBc"), Ok("1aBc2".to_string()));
    // the log holds what was applied here, in the order applied
    assert_eq!(manager.cache().latest(), Some(6));
    assert_eq!(Pad::from_revisions(manager.cache().revisions()).unwrap().text(), "1aBc2");
}

#[test]
fn remote_revision_received_twice_changes_nothing() {
    let (mut manager, mut pad, text) = open_at(3);
    let (rev, _) = server_revision(3, &text, &insert_at(3, 3, "d"), "other");
    assert_eq!(manager.receive_remote_revision(&mut pad, &rev), Ok(()));
    assert_eq!(manager.receive_remote_revision(&mut pad, &rev), Ok(()));
    assert_eq!(pad.text(), "abcd");
    assert_eq!(pad.rev_id(), 4);
    assert_eq!(manager.cache().len(), 4);
    assert_eq!(manager.state(), SyncState::Synced);
}

#[test]
fn remote_revision_must_follow_its_base() {
    let (mut manager, mut pad, text) = open_at(3);
    let (mut rev, _) = server_revision(3, &text, &insert_at(3, 3, "d"), "other");
    rev.rev_id = 5;
    assert_eq!(manager.receive_remote_revision(&mut pad, &rev), Err(ErrorCode::OutOfOrder));
    let (mut corrupt, _) = server_revision(3, &text, &insert_at(3, 3, "d"), "other");
    corrupt.delta_bytes = vec![1, 2, 3];
    assert_eq!(manager.receive_remote_revision(&mut pad, &corrupt), Err(ErrorCode::MalformedDelta));
    assert_eq!(manager.state(), SyncState::Synced);
    assert_eq!(pad.text(), "abc");
}

#[test]
fn reconnect_retransmits_the_pending_queue_under_its_numbers() {
    let (mut editor, text) = editor_at(5);
    let out = editor.receive_ws_data(connected(5, &text)).unwrap();
    assert!(out.send.is_empty());
    // the oldest pending revision goes out, the others wait for its acknowledgment
    let a = editor.apply_change(&insert_at(5, 5, "1")).unwrap();
    let b = editor.apply_change(&insert_at(6, 6, "2")).unwrap();
    let c = editor.apply_change(&insert_at(7, 7, "3")).unwrap();
    assert_eq!(ids(&a.send), vec![(5, 6)]);
    assert!(b.send.is_empty());
    assert!(c.send.is_empty());
    let queued = editor.rev_manager().pending_revisions();
    assert_eq!(ids(&queued), vec![(5, 6), (6, 7), (7, 8)]);
    editor.disconnected();
    assert_eq!(editor.rev_manager().cache().latest(), Some(8));
    let mut sent = editor.receive_ws_data(connected(5, &text)).unwrap().send;
    for id in [6, 7, 8] {
        let out = editor.receive_ws_data(message(ServerRevisionWSDataType::ServerAck(id))).unwrap();
        sent.extend(out.send);
    }
    // all three went out again, as they were and under their numbers
    assert_eq!(sent, queued);
    // a second acknowledgment of the same revisions changes nothing
    let out = editor.receive_ws_data(message(ServerRevisionWSDataType::ServerAck(8))).unwrap();
    assert!(out.send.is_empty());
    assert_eq!(editor.rev_manager().pending_len(), 0);
    assert_eq!(editor.rev_manager().acked_rev_id(), 8);
    assert_eq!(editor.rev_manager().rev_id(), 8);
    let cache = editor.rev_manager().cache();
    assert_eq!(ids(&cache.read_range(6, 8).collect(cache)), vec![(5, 6), (6, 7), (7, 8)]);
    assert_eq!(editor.folder().text(), "abcde123");
}

#[test]
fn edits_while_the_channel_is_down_succeed_and_wait() {
    let (mut editor, text) = editor_at(2);
    let out = editor.apply_change(&insert_at(2, 0, "x")).unwrap();
    assert!(out.send.is_empty());
    assert!(out.changed);
    assert_eq!(editor.folder().text(), "xab");
    assert_eq!(editor.rev_manager().pending_len(), 1);
    assert!(editor.send_failed().unwrap().send.is_empty());
    let out = editor.receive_ws_data(connected(2, &text)).unwrap();
    assert_eq!(ids(&out.send), vec![(2, 3)]);
    let retry = editor.send_failed().unwrap();
    assert_eq!(ids(&retry.send), vec![(2, 3)]);
    assert_eq!(retry.delay_ms, 200);
}

#[test]
fn a_revision_ahead_of_a_gap_waits_until_the_gap_is_filled() {
    let (mut editor, text) = editor_at(8);
    let (r9, t9) = server_revision(8, &text, &insert_at(8, 8, "9"), "other");
    let (r10, t10) = server_revision(9, &t9, &insert_at(9, 9, "A"), "other");
    let (r11, t11) = server_revision(10, &t10, &insert_at(10, 10, "B"), "other");
    assert_eq!(r11.base_rev_id, 10);
    let out = editor.receive_ws_data(message(ServerRevisionWSDataType::ServerPushRev(r11))).unwrap();
    assert!(!out.changed);
    assert_eq!(editor.folder().rev_id(), 8);
    assert_eq!(editor.folder().text(), text);
    assert_eq!(editor.rev_manager().buffered_len(), 1);
    assert_eq!(editor.rev_manager().state(), SyncState::Conflicted);
    let out = editor.receive_ws_data(message(ServerRevisionWSDataType::ServerPushRev(r9))).unwrap();
    assert!(out.changed);
    assert_eq!(editor.folder().rev_id(), 9);
    assert_eq!(editor.rev_manager().buffered_len(), 1);
    let out = editor.receive_ws_data(message(ServerRevisionWSDataType::ServerPushRev(r10))).unwrap();
    assert!(out.changed);
    assert_eq!(editor.folder().rev_id(), 11);
    assert_eq!(editor.folder().text(), t11);
    assert_eq!(editor.rev_manager().buffered_len(), 0);
    assert_eq!(editor.rev_manager().state(), SyncState::Synced);
}

#[test]
fn a_gap_of_one_revision_resolves_when_it_arrives() {
    let (mut editor, text) = editor_at(8);
    let (r9, t9) = server_revision(8, &text, &insert_at(8, 0, "9"), "other");
    let (r10, t10) = server_revision(9, &t9, &insert_at(9, 0, "A"), "other");
    editor.receive_ws_data(message(ServerRevisionWSDataType::ServerPushRev(r10))).unwrap();
    assert_eq!(editor.folder().rev_id(), 8);
    editor.receive_ws_data(message(ServerRevisionWSDataType::ServerPushRev(r9))).unwrap();
    assert_eq!(editor.folder().rev_id(), 10);
    assert_eq!(editor.folder().text(), t10);
    assert_eq!(editor.rev_manager().state(), SyncState::Synced);
}

#[test]
fn a_gap_that_lasts_counts_as_divergence() {
    let (mut manager, mut pad, _) = open_at(2);
    let far = Revision::new(FOLDER, 9, 10, Delta::new().to_bytes(), "other", String::new());
    for _ in 0..32 {
        assert_eq!(manager.receive_remote_revision(&mut pad, &far), Ok(()));
    }
    // the same revision waits once only
    assert_eq!(manager.buffered_len(), 1);
    assert_eq!(manager.state(), SyncState::Conflicted);
    assert_eq!(manager.receive_remote_revision(&mut pad, &far), Err(ErrorCode::Divergence));
    assert_eq!(manager.state(), SyncState::Diverged);
    assert_eq!(pad.text(), "ab");
}

#[test]
fn checksum_mismatch_diverges_and_a_cold_load_recovers() {
    let (mut editor, text) = editor_at(4);
    let (mut bad, _) = server_revision(4, &text, &insert_at(4, 4, "e"), "other");
    bad.checksum = checksum_of(b"abcdE");
    let out = editor.receive_ws_data(message(ServerRevisionWSDataType::ServerPushRev(bad.clone()))).unwrap();
    assert!(out.resync);
    assert!(!out.changed);
    assert_eq!(editor.rev_manager().state(), SyncState::Diverged);
    assert_eq!(editor.folder().text(), "abcd");
    assert_eq!(editor.apply_change(&insert_at(4, 0, "x")).err(), Some(ErrorCode::Divergence));
    // the server's history is the authority: a cold load from it gives the server's state
    let (mut manager, mut pad, _) = open_at(4);
    assert_eq!(manager.receive_remote_revision(&mut pad, &bad), Err(ErrorCode::Divergence));
    assert_eq!(manager.state(), SyncState::Diverged);
    assert_eq!(manager.add_local_revision(&bad), Err(ErrorCode::Divergence));
    manager.reset();
    assert_eq!(manager.state(), SyncState::Uninitialized);
    assert_eq!(manager.cache().len(), 0);
    assert_eq!(manager.begin_load(), Ok(true));
    let (server_history, server_text) = history(7);
    let pad = manager.load(server_history.clone()).unwrap();
    assert_eq!(pad.text(), server_text);
    assert_eq!(pad.snapshot(), Pad::from_revisions(&server_history).unwrap().snapshot());
    assert_eq!(pad.rev_id(), 7);
    assert_eq!(manager.state(), SyncState::Synced);
}

#[test]
fn ack_confirms_the_revisions_up_to_an_id() {
    let (mut manager, mut pad, _) = open_at(1);
    pad.apply_local(&mut manager, &insert_at(1, 1, "b")).unwrap();
    pad.apply_local(&mut manager, &insert_at(2, 2, "c")).unwrap();
    pad.apply_local(&mut manager, &insert_at(3, 3, "d")).unwrap();
    assert_eq!(manager.ack(1), 0);
    assert_eq!(manager.ack(3), 2);
    assert_eq!(manager.acked_rev_id(), 3);
    assert_eq!(ids(&manager.pending_revisions()), vec![(3, 4)]);
    assert_eq!(manager.rev_id(), 4);
    assert_eq!(manager.ack(9), 1);
    assert_eq!(manager.pending_len(), 0);
    assert_eq!(manager.acked_rev_id(), 4);
    // the confirmed text takes the server's next revision
    let (rev, _) = server_revision(4, "abcd", &insert_at(4, 4, "e"), "other");
    assert_eq!(manager.receive_remote_revision(&mut pad, &rev), Ok(()));
    assert_eq!(pad.text(), "abcde");
}

#[test]
fn take_ready_hands_out_what_no_gap_holds_back() {
    let (mut manager, mut pad, text) = open_at(2);
    let (r3, t3) = server_revision(2, &text, &insert_at(2, 2, "c"), "other");
    let (r4, _) = server_revision(3, &t3, &insert_at(3, 3, "d"), "other");
    assert_eq!(manager.receive_remote_revision(&mut pad, &r4), Ok(()));
    assert_eq!(manager.take_ready(), None);
    assert_eq!(manager.receive_remote_revision(&mut pad, &r3), Ok(()));
    assert_eq!(manager.drain_buffer(&mut pad), 1);
    assert_eq!(manager.take_ready(), None);
    assert_eq!(pad.text(), "abcd");
}

#[test]
fn passthrough_leaves_the_revisions_alone() {
    let (mut editor, _) = editor_at(3);
    editor.apply_change(&insert_at(3, 0, "x")).unwrap();
    let out = editor
        .receive_ws_data(message(ServerRevisionWSDataType::Passthrough(vec![1, 2, 3])))
        .unwrap();
    assert_eq!(out.passthrough, Some(vec![1, 2, 3]));
    assert!(out.send.is_empty());
    assert!(!out.changed);
    assert_eq!(editor.folder().text(), "xabc");
    assert_eq!(editor.rev_manager().pending_len(), 1);
}

#[test]
fn a_message_for_another_object_is_refused() {
    let (mut editor, _) = editor_at(3);
    let data = ServerRevisionWSData {
        object_id: "folder-2".to_string(),
        ty: ServerRevisionWSDataType::ServerAck(3),
    };
    assert_eq!(editor.receive_ws_data(data).err(), Some(ErrorCode::TransportFailure));
    assert_eq!(editor.folder_id(), FOLDER);
}

#[test]
fn editor_refuses_a_history_with_gaps() {
    let (revs, _) = history(3);
    let gap = vec![revs[0].clone(), revs[2].clone()];
    assert_eq!(
        FolderEditor::new("me", FOLDER, RevisionCache::new(), gap).err(),
        Some(ErrorCode::OutOfOrder)
    );
}

#[test]
fn sync_manager_sends_one_revision_at_a_time() {
    let (mut manager, mut pad, _) = open_at(1);
    let sum = checksum_of(b"a");
    let mut ws = RevisionWebSocketManager::new();
    assert!(!ws.is_connected());
    pad.apply_local(&mut manager, &insert_at(1, 1, "b")).unwrap();
    assert!(ws.flush(&manager).is_empty());
    assert_eq!(ids(&ws.on_connect(&mut manager, &pad, 1, &sum).send), vec![(1, 2)]);
    assert!(ws.flush(&manager).is_empty());
    pad.apply_local(&mut manager, &insert_at(2, 2, "c")).unwrap();
    assert!(ws.flush(&manager).is_empty());
    assert_eq!(ids(&ws.on_ack(&mut manager, &mut pad, 2).send), vec![(2, 3)]);
    assert!(ws.flush(&manager).is_empty());
    assert_eq!(ids(&ws.on_send_failed(&manager).unwrap().send), vec![(2, 3)]);
    ws.on_disconnect();
    assert!(ws.on_send_failed(&manager).unwrap().send.is_empty());
    assert_eq!(ids(&ws.on_connect(&mut manager, &pad, 2, &checksum_of(b"ab")).send), vec![(2, 3)]);
    assert!(ws.on_ack(&mut manager, &mut pad, 3).send.is_empty());
}

#[test]
fn sync_manager_sends_the_rebased_revision_after_a_conflict() {
    let (mut manager, mut pad, text) = open_at(2);
    let mut ws = RevisionWebSocketManager::new();
    ws.on_connect(&mut manager, &pad, 2, &checksum_of(text.as_bytes()));
    pad.apply_local(&mut manager, &insert_at(2, 2, "L")).unwrap();
    assert_eq!(ids(&ws.flush(&manager)), vec![(2, 3)]);
    let (rev, _) = server_revision(2, &text, &insert_at(2, 0, "R"), "other");
    let out = ws.on_server_revision(&mut manager, &mut pad, &rev);
    assert_eq!(out.error, None);
    assert!(out.changed);
    assert!(!out.resync);
    assert_eq!(ids(&out.send), vec![(3, 4)]);
    assert_eq!(pad.text(), "RabL");
}

#[test]
fn errors_tell_whether_the_session_goes_on() {
    assert!(ErrorCode::MalformedDelta.is_recoverable());
    assert!(ErrorCode::OutOfOrder.is_recoverable());
    assert!(ErrorCode::Conflict.is_recoverable());
    assert!(ErrorCode::TransportFailure.is_recoverable());
    assert!(!ErrorCode::Divergence.is_recoverable());
}

#[test]
fn a_pending_revision_come_back_acknowledges_it() {
    let (mut manager, mut pad, _) = open_at(2);
    let first = pad.apply_local(&mut manager, &insert_at(2, 2, "c")).unwrap();
    let second = pad.apply_local(&mut manager, &insert_at(3, 3, "d")).unwrap();
    assert_eq!(manager.receive_remote_revision(&mut pad, &first), Ok(()));
    assert_eq!(pad.text(), "abcd");
    assert_eq!(pad.rev_id(), 4);
    assert_eq!(manager.acked_rev_id(), 3);
    assert_eq!(manager.pending_revisions(), vec![second]);
    assert_eq!(manager.cache().len(), 4);
    // received once more it is a revision that was received before
    assert_eq!(manager.receive_remote_revision(&mut pad, &first), Ok(()));
    assert_eq!(manager.pending_len(), 1);
    assert_eq!(pad.text(), "abcd");
}

#[test]
fn revisions_compare_field_by_field() {
    let a = Revision::new(FOLDER, 1, 2, vec![1, 2, 3], "me", "sum".to_string());
    assert!(a.same(&a.clone()));
    assert!(a.is_step());
    assert_eq!(a.pair(), (1, 2));
    let mut b = a.clone();
    b.delta_bytes[2] = 4;
    assert!(!a.same(&b));
    let mut c = a.clone();
    c.author_id = "you".to_string();
    assert!(!a.same(&c));
    let mut d = a.clone();
    d.rev_id = 3;
    assert!(!a.same(&d));
    assert!(!d.is_step());
    assert!(!Revision::new(FOLDER, u64::MAX, 0, Vec::new(), "me", String::new()).is_step());
}

#[test]
fn sending_rests_after_too_many_failures_in_a_row() {
    let (mut manager, mut pad, _) = open_at(1);
    let sum = checksum_of(b"a");
    let mut ws = RevisionWebSocketManager::new();
    ws.on_connect(&mut manager, &pad, 1, &sum);
    pad.apply_local(&mut manager, &insert_at(1, 1, "b")).unwrap();
    assert_eq!(ids(&ws.flush(&manager)), vec![(1, 2)]);
    for delay in [200, 400, 800, 1600] {
        let retry = ws.on_send_failed(&manager).unwrap();
        assert_eq!(ids(&retry.send), vec![(1, 2)]);
        assert_eq!(retry.delay_ms, delay);
        assert!(!ws.is_stalled());
    }
    assert_eq!(ws.on_send_failed(&manager).err(), Some(ErrorCode::TransportFailure));
    assert!(ws.is_stalled());
    // the queue is kept, and nothing is sent while sending rests
    assert_eq!(manager.pending_len(), 1);
    pad.apply_local(&mut manager, &insert_at(2, 2, "c")).unwrap();
    assert!(ws.flush(&manager).is_empty());
    assert_eq!(ws.on_send_failed(&manager).err(), Some(ErrorCode::TransportFailure));
    // a new connection starts over with the oldest pending revision
    assert_eq!(ids(&ws.on_connect(&mut manager, &pad, 1, &sum).send), vec![(1, 2)]);
    assert!(!ws.is_stalled());
    assert_eq!(ws.on_send_failed(&manager).unwrap().delay_ms, 200);
    assert_eq!(ws.on_send_failed(&manager).unwrap().delay_ms, 400);
    // an acknowledgment shows that the transport delivers again
    assert_eq!(ids(&ws.on_ack(&mut manager, &mut pad, 2).send), vec![(2, 3)]);
    assert_eq!(ws.on_send_failed(&manager).unwrap().delay_ms, 200);
}

#[test]
fn a_session_closes_when_its_queue_is_flushed_or_it_is_abandoned() {
    let (mut editor, text) = editor_at(2);
    editor.receive_ws_data(connected(2, &text)).unwrap();
    editor.apply_change(&insert_at(2, 2, "c")).unwrap();
    assert!(!editor.close(false));
    // the session goes on: the acknowledgment still comes in
    editor.receive_ws_data(message(ServerRevisionWSDataType::ServerAck(3))).unwrap();
    assert!(editor.close(false));
    // a closed session transmits no more
    let out = editor.apply_change(&insert_at(3, 3, "d")).unwrap();
    assert!(out.send.is_empty());
    assert!(editor.close(true));
    assert_eq!(editor.rev_manager().pending_len(), 1);
}

#[test]
fn wire_format_round_trip() {
    let rev = Revision::new("fé", 258, 259, vec![9, 8], "me", "ab".to_string());
    let bytes = rev.to_bytes();
    let mut expected: Vec<u8> = Vec::new();
    expected.extend_from_slice(&[3, 0, 0, 0, 0, 0, 0, 0]);
    expected.extend_from_slice("fé".as_bytes());
    expected.extend_from_slice(&[2, 1, 0, 0, 0, 0, 0, 0]);
    expected.extend_from_slice(&[3, 1, 0, 0, 0, 0, 0, 0]);
    expected.extend_from_slice(&[2, 0, 0, 0, 0, 0, 0, 0, 9, 8]);
    expected.extend_from_slice(&[2, 0, 0, 0, 0, 0, 0, 0, b'm', b'e']);
    expected.extend_from_slice(&[2, 0, 0, 0, 0, 0, 0, 0, b'a', b'b']);
    assert_eq!(bytes, expected);
    assert_eq!(Revision::from_bytes(&bytes), Ok(rev));
    let (revs, _) = history(3);
    for rev in revs {
        assert_eq!(Revision::from_bytes(&rev.to_bytes()), Ok(rev));
    }
}

#[test]
fn wire_format_refuses_corrupt_bytes() {
    let rev = Revision::new("f", 1, 2, vec![9], "me", "ab".to_string());
    let bytes = rev.to_bytes();
    assert_eq!(Revision::from_bytes(&[]), Err(ErrorCode::MalformedDelta));
    assert_eq!(Revision::from_bytes(&bytes[..bytes.len() - 1]), Err(ErrorCode::MalformedDelta));
    let mut longer = bytes.clone();
    longer.push(0);
    assert_eq!(Revision::from_bytes(&longer), Err(ErrorCode::MalformedDelta));
    let mut not_text = bytes.clone();
    not_text[8] = 0xff;
    assert_eq!(Revision::from_bytes(&not_text), Err(ErrorCode::MalformedDelta));
    let mut too_long = bytes.clone();
    too_long[7] = 0xff;
    assert_eq!(Revision::from_bytes(&too_long), Err(ErrorCode::MalformedDelta));
}

#[test]
fn an_acknowledgment_lets_buffered_revisions_in() {
    let (mut editor, text) = editor_at(2);
    editor.receive_ws_data(connected(2, &text)).unwrap();
    let sent = editor.apply_change(&insert_at(2, 2, "c")).unwrap().send;
    assert_eq!(ids(&sent), vec![(2, 3)]);
    // the server took the edit as revision 3; the next revision overtakes the acknowledgment
    let after = format!("{}c", text);
    let (r4, t4) = server_revision(3, &after, &insert_at(3, 0, "Z"), "other");
    let out = editor.receive_ws_data(message(ServerRevisionWSDataType::ServerPushRev(r4))).unwrap();
    assert!(!out.changed);
    assert_eq!(editor.rev_manager().buffered_len(), 1);
    let out = editor.receive_ws_data(message(ServerRevisionWSDataType::ServerAck(3))).unwrap();
    assert!(out.changed);
    assert!(out.send.is_empty());
    assert_eq!(editor.folder().text(), t4);
    assert_eq!(editor.folder().rev_id(), 4);
    assert_eq!(editor.rev_manager().buffered_len(), 0);
    assert_eq!(editor.rev_manager().state(), SyncState::Synced);
}

#[test]
fn a_loaded_log_is_sent_where_the_server_has_not_got_it() {
    // three local edits are in the log when the session ends
    let (mut first, text) = editor_at(5);
    first.apply_change(&insert_at(5, 5, "1")).unwrap();
    first.apply_change(&insert_at(6, 6, "2")).unwrap();
    first.apply_change(&insert_at(7, 7, "3")).unwrap();
    let kept = first.rev_manager().cache().read_all();
    let queued = first.rev_manager().pending_revisions();
    // a new session loads the log; the server is still at revision 5
    let cache = RevisionCache::restore(kept).unwrap();
    let mut editor = FolderEditor::new("me", FOLDER, cache, Vec::new()).unwrap();
    assert_eq!(editor.folder().text(), "abcde123");
    assert_eq!(editor.rev_manager().pending_len(), 0);
    let out = editor.receive_ws_data(connected(5, &text)).unwrap();
    assert!(!out.resync);
    assert_eq!(editor.rev_manager().acked_rev_id(), 5);
    assert_eq!(editor.rev_manager().pending_revisions(), queued);
    let mut sent = out.send;
    for id in [6, 7, 8] {
        sent.extend(editor.receive_ws_data(message(ServerRevisionWSDataType::ServerAck(id))).unwrap().send);
    }
    assert_eq!(sent, queued);
    assert_eq!(editor.rev_manager().pending_len(), 0);
    assert_eq!(editor.rev_manager().acked_rev_id(), 8);
    assert_eq!(editor.folder().text(), "abcde123");
    assert_eq!(editor.folder().rev_id(), 8);
}

#[test]
fn a_report_that_does_not_fit_the_log_ends_the_session() {
    let (revs, text) = history(4);
    // the server holds another text at revision 2 than the log
    let cache = RevisionCache::restore(revs.clone()).unwrap();
    let mut editor = FolderEditor::new("me", FOLDER, cache, Vec::new()).unwrap();
    let out = editor.receive_ws_data(connected(2, "xy")).unwrap();
    assert!(out.resync);
    assert!(out.send.is_empty());
    assert_eq!(editor.rev_manager().state(), SyncState::Diverged);
    // the server holds another text at the confirmed revision
    let (mut manager, pad, _) = open_at(4);
    assert_eq!(manager.confirm(&pad, 4, &checksum_of(b"abcX")), Err(ErrorCode::Divergence));
    assert_eq!(manager.state(), SyncState::Diverged);
    // a report that fits changes nothing; one beyond the confirmed revision says nothing yet
    let (mut manager, mut pad, _) = open_at(4);
    assert_eq!(manager.confirm(&pad, 4, &checksum_of(text.as_bytes())), Ok(()));
    assert_eq!(manager.confirm(&pad, 9, &checksum_of(b"?")), Ok(()));
    assert_eq!(manager.acked_rev_id(), 4);
    // the confirmation is not taken back while revisions are pending
    pad.apply_local(&mut manager, &insert_at(4, 0, "x")).unwrap();
    assert_eq!(manager.confirm(&pad, 3, &checksum_of(b"abc")), Err(ErrorCode::Divergence));
}

#[test]
fn a_report_behind_the_log_takes_the_confirmation_back() {
    let (mut manager, pad, _) = open_at(4);
    assert_eq!(manager.confirm(&pad, 1, &checksum_of(b"a")), Ok(()));
    assert_eq!(manager.acked_rev_id(), 1);
    assert_eq!(manager.rev_id(), 4);
    assert_eq!(ids(&manager.pending_revisions()), vec![(1, 2), (2, 3), (3, 4)]);
    assert_eq!(pad.text(), "abcd");
    assert_eq!(manager.state(), SyncState::Synced);
    let (mut manager, pad, _) = open_at(3);
    assert_eq!(manager.confirm(&pad, 0, &checksum_of(b"")), Ok(()));
    assert_eq!(ids(&manager.pending_revisions()), vec![(0, 1), (1, 2), (2, 3)]);
}
