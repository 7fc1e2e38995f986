//! Shared reading with live presence.
//!
//! A document is laid out into positioned elements, the reader's anchor is
//! kept across reflows, and readers publish and observe each other's visible
//! ranges through a presence store with liveness expiry and an optional
//! shared-secret check.

pub mod text;
pub mod document;
pub mod layout;
pub mod presence;
pub mod server;
pub mod sync;
pub mod view;
pub mod ingest;
pub mod session;
