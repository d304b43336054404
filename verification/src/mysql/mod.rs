//! MySQL: the wire format, the handshake, and the decisions of the client and server
//! sessions.
pub mod wire;
pub mod handshake;
pub mod session;
pub mod client;
pub mod roundtrip;
