//! MS-TDS: packets, the pre-login, login and token codecs, and the server's query handling.
pub mod codec;
pub mod server;
pub mod client;
pub mod roundtrip;
