//! A verified core for a tool-calling chat middleware.
//!
//! The crate holds the logic of the system: the streaming in-band tool-call
//! parser, content-addressed identifiers, blob reference counting, session
//! bookkeeping, the chat-loop planning steps, and the tool registry with its
//! prompt synthesis.  Storage engines, HTTP transport and the model client
//! live outside the library and talk to it through plain values.
pub mod asset_id;
pub mod blob;
pub mod chat;
pub mod interp;
pub mod mux;
pub mod parser;
pub mod registry;
pub mod sandbox;
pub mod schema;
pub mod session;
pub mod textops;
pub mod toolargs;

use vstd::prelude::*;

verus! {

/// Which storage engine backs the blob and session stores.
#[derive(Clone, Copy, PartialEq, Eq, Structural, Debug)]
pub enum StorageKind {
    Sled,
    Redb,
}

impl StorageKind {
    /// Canonical configuration name of the backend.
    pub fn text(&self) -> (r: &'static str)
        ensures
            *self == StorageKind::Sled ==> r@ == "sled"@,
            *self == StorageKind::Redb ==> r@ == "redb"@,
    {
        match self {
            StorageKind::Sled => "sled",
            StorageKind::Redb => "redb",
        }
    }
}

} // verus!
