//! A personal record store: named text snippets with tags, kept in four
//! tables (snippets, tags, snippet-tag links, metadata) with soft deletion,
//! monotone timestamps, and a push-only sync protocol with a watermark.
//!
//! The store itself is an in-memory table model; reading it from and writing
//! it back to durable storage, as well as the network transport of the sync
//! engine, are left to the surrounding application.

pub mod clock;
pub mod error;
pub mod jsonio;
pub mod laws;
pub mod model;
pub mod numfmt;
pub mod rows;
pub mod search;
pub mod snippet;
pub mod store;
pub mod sync;
pub mod util;
pub mod wire;
