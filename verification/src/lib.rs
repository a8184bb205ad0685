//! A single-threaded, level-triggered network reactor, modelled as a verified
//! state machine.
//!
//! The reactor owns the registry of peer connections, the set of in-flight
//! outbound connects, the per-peer interest masks and the timer wheel. Every
//! decision the event loop makes — which protocol callbacks to issue for a
//! readiness event, how to enact a protocol intent, when to fire timers — is
//! a verified method on [`reactor::Reactor`]. The operating-system work itself
//! (polling, reading, writing, dialing) is performed by the embedding program,
//! which feeds the outcomes back into the state machine as plain values.

pub mod addr;
pub mod block;
pub mod history;
pub mod reactor;
pub mod io;
pub mod time;
