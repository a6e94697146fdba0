//! Client-side synchronization core of a realtime chat session.
//!
//! The crate interprets an ordered stream of JSON-framed envelopes arriving
//! over a single connection, reconciles a local view of the participant
//! roster and the message history, and builds the outbound envelopes for
//! user-initiated commands (registration, chat submission).

pub mod bus;
pub mod codec;
pub mod session;
