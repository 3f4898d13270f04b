//! A verified core for a mail client that runs over signed, content-addressed
//! records: identity checks, envelope unwrapping, idempotent ingestion, a
//! deletion and trash lifecycle, and conversation threading.

pub mod id;
pub mod kind;
pub mod tag;
pub mod outside;
pub mod record;
pub mod verify;
pub mod unwrap;
pub mod store;
pub mod laws;
pub mod profile;
pub mod router;
pub mod thread;
pub mod contact;
pub mod listing;
pub mod message;
