//! Client-side protocol library for a remote graph-scoring engine.
//!
//! The engine owns the graph; this crate owns the wire contract. It builds
//! the three-part command envelope (opcode tag, context, argument blob),
//! validates range filters before any byte leaves the process, decodes
//! replies with a typed-or-error-sentinel fallback, and states the
//! context-aggregation rules that the engine is expected to maintain.
//! Edge weights and scores travel as IEEE-754 double bit patterns, so the
//! whole wire layer is plain byte and integer arithmetic.

pub mod buckets;
pub mod client;
pub mod commands;
pub mod replies;
pub mod wire;
