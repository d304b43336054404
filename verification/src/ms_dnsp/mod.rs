//! MS-DNSP: records, messages, the zone store and the server's answers.
pub mod codec;
pub mod zone;
