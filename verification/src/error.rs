//! The error type shared by every codec of the crate.
use vstd::prelude::*;

verus! {

/// Why a message could not be decoded or an exchange could not proceed.
#[derive(Debug, Clone, Copy, PartialEq, Eq)]
pub enum ProtoError {
    /// The bytes do not form a valid message of the protocol.
    Parse(&'static str),
    /// A well-formed message was refused by the protocol logic.
    Message(&'static str),
}

/// Result type of every fallible operation of the crate.
pub type ProtoResult<T> = Result<T, ProtoError>;

} // verus!
