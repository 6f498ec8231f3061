//! Update-distribution router: a tree of delivery routes fans inbound update
//! payloads out to long-poll queues and webhook relays, while a registry maps
//! HTTP paths to the queues that serve them.
//!
//! The crate verifies the routing decisions themselves: queue FIFO order and
//! batch limits, round-robin child selection, broadcast fan-out, registry
//! overwrite semantics, and the request-dispatch rules. The surrounding I/O
//! (HTTP transport, timers, task scheduling) is left to the embedding program,
//! which drives these state machines with plain values.

pub mod describe;
pub mod handler;
pub mod longpull;
pub mod payload;
pub mod props;
pub mod registry;
pub mod routing;
pub mod setup;
pub mod subst;
pub mod webhook;
