//! Revision synchronisation for a shared folder document.
//!
//! A document is a sequence of Unicode scalar values. Edits are deltas
//! (`op`, `delta`), whose meaning, composition and transformation are
//! defined and proved over plain sequences (`semantics`, `compose`,
//! `transform`). Deltas travel as bytes (`codec`, `json`) inside numbered,
//! checksummed revisions (`revision`, `wire`, `checksum`), which are logged
//! without gaps (`cache`), replayed into a pad (`pad`) and reconciled with
//! the server's revisions by the revision manager (`manager`, with its model
//! in `manager_model` and the rebase of pending revisions in `rebase`). The
//! sync manager (`ws`) decides what is transmitted, and the editor
//! (`editor`) holds the three together for one folder. The rules of the
//! folder's entities are in `entities`, `trash`, `server_sync` and `retry`.

pub mod op;
pub mod semantics;
pub mod semantics_proofs;
pub mod compose;
pub mod transform;
pub mod errors;
mod cursor;
pub mod delta;
pub mod codec;
pub mod server_folder;
pub mod entities;
pub mod checksum;
pub mod revision;
pub mod wire;
pub mod cache;
pub mod pad;
pub mod rebase;
pub mod manager_model;
mod manager_core;
pub mod manager;
pub mod ws;
mod editor_core;
pub mod editor;
pub mod json;
pub mod retry;
pub mod trash;
pub mod server_sync;
