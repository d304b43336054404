//! NTLM authentication: messages, hashes, key derivation and message security.
pub mod md4;
pub mod des;
pub mod rc4;
pub mod hash;

pub use des::des_encrypt_block;
pub use hash::{lm_hash, nt_hash, NtlmSession};
pub use md4::md4_digest;
pub use rc4::Rc4;
pub mod av;
pub mod message;
pub mod token;
pub mod seal;
pub mod auth;
pub mod roundtrip;
