//! A declarative-to-concurrent code synthesizer: given a namespace of
//! declarations, it pairs each message-set declaration (a tagged union of
//! request kinds, named with a reserved suffix) with the state declaration of
//! the same derived name, rewrites reply fields into single-use reply slots,
//! and emits the scaffolding for a mailbox-backed actor: a handle type, a
//! constructor that spawns a worker, a dispatch loop, and one round-trip plus
//! one fire-and-forget accessor method per request kind.
//!
//! Parsing raw syntax into the structured namespace and printing the result
//! back out are the host's job; this crate holds the matching, validation and
//! synthesis pipeline, and the semantic model of the mailbox and worker that
//! the emitted scaffolding must satisfy.

pub mod names;
pub mod decl;
pub mod table;
pub mod pipeline;
pub mod laws;
pub mod runtime;
