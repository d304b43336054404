//! LDAPv3: BER framing, the protocol messages, search filters and an
//! in-memory directory that answers requests.
pub mod ber;
pub mod model;
pub mod codec;
pub mod encode;
pub mod dn;
pub mod matching;
pub mod directory;
pub mod backend;
pub mod filter_text;
pub mod store_laws;
pub mod roundtrip;
pub mod client;
pub mod framing;
