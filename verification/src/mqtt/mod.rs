//! MQTT: the control packet codec, topic matching, the broker's routing and the
//! decisions of the client and server sessions.
pub mod codec;
pub mod roundtrip;
pub mod broker;
pub mod client;
