//! Signaling coordination for browser peers that discover each other in named
//! rooms and negotiate direct connections through a relay.
//!
//! The library holds the verified core: the membership store that keeps the
//! room index and the reverse index consistent, the presence directory that
//! fans out membership events and evicts peers whose push channel reports
//! them gone, the per-peer negotiation state machine, the session controller
//! that dispatches inbound directory events, and the wire codec for the JSON
//! messages. The push transport and the negotiation engine are collaborators:
//! the directory and the session hand their callers envelopes to deliver and
//! take the collaborators' results back as plain values.

pub mod assets;
pub mod codec;
pub mod directory;
pub mod peer;
pub mod protocol;
pub mod session;
pub mod store;
pub mod text;
