use folder_sync::cache::RevisionCache;
use folder_sync::checksum::checksum_of;
use folder_sync::delta::Delta;
use folder_sync::editor::{FolderEditor, ServerRevisionWSData, ServerRevisionWSDataType};
use folder_sync::manager_model::SyncState;
use folder_sync::op::PlainTextAttributes;
use folder_sync::pad::Pad;
use folder_sync::revision::Revision;
use std::collections::VecDeque;

const OBJECT: &str = "shared";

/// A small generator of numbers that gives the same run for the same seed.
struct Dice(u64);

impl Dice {
    fn roll(&mut self, sides: usize) -> usize {
        self.0 ^= self.0 << 13;
        self.0 ^= self.0 >> 7;
        self.0 ^= self.0 << 17;
        (self.0 % sides as u64) as usize
    }
}

/// A server that puts the revisions in one order: it takes a revision that
/// starts at its latest one and drops any other.
struct Server {
    text: String,
    log: Vec<Revision>,
}

enum ToClient {
    Ack(u64),
    Push(Revision),
}

struct Client {
    name: String,
    editor: FolderEditor,
    inbox: VecDeque<ToClient>,
    outbox: VecDeque<Revision>,
}

impl Server {
    fn receive(&mut self, revision: Revision, clients: &mut [Client]) {
        let latest = self.log.len() as u64;
        if revision.base_rev_id != latest || revision.rev_id != latest + 1 {
            return;
        }
        let delta = Delta::from_bytes(&revision.delta_bytes).unwrap();
        let text = delta.apply(&self.text).unwrap();
        assert_eq!(revision.checksum, checksum_of(text.as_bytes()));
        self.text = text;
        for client in clients.iter_mut() {
            if client.name == revision.author_id {
                client.inbox.push_back(ToClient::Ack(revision.rev_id));
            } else {
                client.inbox.push_back(ToClient::Push(revision.clone()));
            }
        }
        self.log.push(revision);
    }
}

impl Client {
    fn new(name: &str) -> Client {
        let editor = FolderEditor::new(name, OBJECT, RevisionCache::new(), Vec::new()).unwrap();
        let mut client = Client {
            name: name.to_string(),
            editor,
            inbox: VecDeque::new(),
            outbox: VecDeque::new(),
        };
        let data = ServerRevisionWSData {
            object_id: OBJECT.to_string(),
            ty: ServerRevisionWSDataType::UserConnect(0, checksum_of(b"")),
        };
        client.editor.receive_ws_data(data).unwrap();
        client
    }

    fn edit(&mut self, dice: &mut Dice) {
        let len = self.editor.folder().text().chars().count();
        let mut delta = Delta::new();
        let attrs = PlainTextAttributes {};
        if len > 0 && dice.roll(3) == 0 {
            let at = dice.roll(len);
            let n = 1 + dice.roll((len - at).min(3));
            delta.retain(at, attrs);
            delta.delete(n);
            delta.retain(len - at - n, attrs);
        } else {
            let at = dice.roll(len + 1);
            let letters = ["a", "é", "😁", "xy", "\n"];
            delta.retain(at, attrs);
            delta.insert(&format!("{}{}", letters[dice.roll(letters.len())], self.name), attrs);
            delta.retain(len - at, attrs);
        }
        let out = self.editor.apply_change(&delta).unwrap();
        self.outbox.extend(out.send);
    }

    /// Takes a message in. With `dice` the transport is free to deliver out
    /// of order and more than once.
    fn receive(&mut self, dice: Option<&mut Dice>) {
        if self.inbox.is_empty() {
            return;
        }
        let (at, again) = match dice {
            Some(dice) => (dice.roll(self.inbox.len().min(3)), dice.roll(5) == 0),
            None => (0, false),
        };
        let ty = match &self.inbox[at] {
            ToClient::Ack(id) => ServerRevisionWSDataType::ServerAck(*id),
            ToClient::Push(revision) => ServerRevisionWSDataType::ServerPushRev(revision.clone()),
        };
        if !again {
            self.inbox.remove(at);
        }
        let data = ServerRevisionWSData { object_id: OBJECT.to_string(), ty };
        let out = self.editor.receive_ws_data(data).unwrap();
        assert!(!out.resync);
        self.outbox.extend(out.send);
    }
}

fn run(seed: u64, n_clients: usize, steps: usize, unordered: bool) {
    let mut dice = Dice(seed);
    let mut server = Server { text: String::new(), log: Vec::new() };
    let mut clients: Vec<Client> = (0..n_clients).map(|i| Client::new(&format!("c{}", i))).collect();
    for _ in 0..steps {
        let who = dice.roll(n_clients);
        match dice.roll(4) {
            0 => clients[who].edit(&mut dice),
            1 => {
                let dice = if unordered { Some(&mut dice) } else { None };
                clients[who].receive(dice)
            }
            _ => {
                if let Some(revision) = clients[who].outbox.pop_front() {
                    // every revision crosses the wire in its byte format
                    let revision = Revision::from_bytes(&revision.to_bytes()).unwrap();
                    if unordered && dice.roll(5) == 0 {
                        clients[who].outbox.push_back(revision.clone());
                    }
                    server.receive(revision, &mut clients);
                }
            }
        }
    }
    // let everything that is on its way arrive
    loop {
        let mut moved = false;
        for who in 0..n_clients {
            while let Some(revision) = clients[who].outbox.pop_front() {
                server.receive(revision, &mut clients);
                moved = true;
            }
            while !clients[who].inbox.is_empty() {
                clients[who].receive(None);
                moved = true;
            }
        }
        if !moved {
            break;
        }
    }
    let latest = server.log.len() as u64;
    let rebuilt = Pad::from_revisions(&server.log).unwrap();
    assert_eq!(rebuilt.text(), server.text);
    for client in &clients {
        let manager = client.editor.rev_manager();
        assert_eq!(client.editor.folder().text(), server.text, "seed {}", seed);
        assert_eq!(manager.pending_len(), 0, "seed {}", seed);
        assert_eq!(manager.acked_rev_id(), latest, "seed {}", seed);
        assert_eq!(manager.rev_id(), latest, "seed {}", seed);
        assert_eq!(client.editor.folder().rev_id(), latest, "seed {}", seed);
        assert_eq!(manager.state(), SyncState::Synced, "seed {}", seed);
        // the client's own log replays to the same document
        let own = Pad::from_revisions(manager.cache().revisions()).unwrap();
        assert_eq!(own.snapshot(), client.editor.folder().snapshot());
        assert_eq!(own.snapshot(), rebuilt.snapshot());
    }
}

#[test]
fn two_clients_converge_under_any_schedule() {
    for seed in 1..60 {
        run(seed * 7919, 2, 120, false);
    }
}

#[test]
fn three_clients_converge_under_any_schedule() {
    for seed in 1..40 {
        run(seed * 104729 + 1, 3, 200, false);
    }
}

#[test]
fn a_busy_client_among_four_converges() {
    for seed in 1..10 {
        run(seed * 15485863 + 3, 4, 600, false);
    }
}

#[test]
fn clients_converge_when_messages_come_twice_and_out_of_order() {
    for seed in 1..60 {
        run(seed * 32452843 + 5, 3, 240, true);
    }
}
