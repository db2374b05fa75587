//! Verified core of the ferry peer-to-peer chat: chat sessions and the
//! outbound queue, the peer table and inbox of the transport, the wire
//! framing of envelopes, and the lifecycle of the group-chat engine.

pub mod api;
pub mod chat_state;
pub mod group;
pub mod laws;
pub mod text;
pub mod transport;
