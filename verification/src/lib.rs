//! Worker-side transport and framing protocol for a two-process simulation
//! loop: a coordinator and a worker exchange variable-shaped messages through
//! one fixed-size shared byte buffer, taking strict turns. This crate holds
//! the verified core: the byte-level codec for every message kind, the
//! shared-info map and its merge rule, the worker's control state machine,
//! and a model of the turn-taking handoff that keeps the buffer
//! single-writer.
//!
//! Values produced by the pluggable per-field encoders (agent identifiers,
//! observations, actions, rewards, state blobs, space descriptors) are
//! carried as opaque byte strings, framed with a leading length.

pub mod bytes;
pub mod codec;
pub mod handoff;
pub mod info;
pub mod roundtrip;
pub mod worker;
pub mod wire;
