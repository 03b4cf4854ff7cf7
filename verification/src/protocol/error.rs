//! Why bytes could not be read as a command or a response.

use vstd::prelude::*;
use crate::protocol::varint::VarintError;

verus! {

/// Why bytes could not be read as a command or a response. Where a variant
/// carries a byte, it is the command or response type that was being read.
#[derive(Debug, Clone, PartialEq, Eq)]
pub enum ProtocolError {
    /// No bytes were given for a command.
    EmptyCommand,
    /// No bytes were given for a response.
    EmptyResponse,
    /// A length prefix could not be read.
    Varint(VarintError),
    /// A key is longer than the bytes that follow its length.
    InvalidKeyLength(u8),
    /// A value is longer than the bytes that follow its length.
    InvalidValueLength(u8),
    /// A PUT command ends before its TTL flag.
    MissingTtlFlag,
    /// A PUT command announces a TTL that is not there.
    InvalidTtl,
    /// An EXPIRE command is shorter than its key and TTL.
    InvalidExpireFormat,
    /// A binary command starts with a type byte that no command has.
    UnknownCommandType(u8),
    /// A binary response starts with a type byte that no response has.
    UnknownResponseType(u8),
    /// Text is not valid UTF-8.
    InvalidUtf8,
    /// A text command lacks the arguments it needs; the byte is the command
    /// type that it names.
    MissingArguments(u8),
    /// A text TTL is not a decimal number that fits in 64 bits.
    InvalidNumber,
    /// A text command word that no command has.
    UnknownCommand(String),
}

/// A decoding error as plain values.
pub enum ProtocolErrorView {
    EmptyCommand,
    EmptyResponse,
    Varint(VarintError),
    InvalidKeyLength(u8),
    InvalidValueLength(u8),
    MissingTtlFlag,
    InvalidTtl,
    InvalidExpireFormat,
    UnknownCommandType(u8),
    UnknownResponseType(u8),
    InvalidUtf8,
    MissingArguments(u8),
    InvalidNumber,
    UnknownCommand(Seq<char>),
}

impl View for ProtocolError {
    type V = ProtocolErrorView;

    open spec fn view(&self) -> ProtocolErrorView {
        match self {
            ProtocolError::EmptyCommand => ProtocolErrorView::EmptyCommand,
            ProtocolError::EmptyResponse => ProtocolErrorView::EmptyResponse,
            ProtocolError::Varint(e) => ProtocolErrorView::Varint(*e),
            ProtocolError::InvalidKeyLength(t) => ProtocolErrorView::InvalidKeyLength(*t),
            ProtocolError::InvalidValueLength(t) => ProtocolErrorView::InvalidValueLength(*t),
            ProtocolError::MissingTtlFlag => ProtocolErrorView::MissingTtlFlag,
            ProtocolError::InvalidTtl => ProtocolErrorView::InvalidTtl,
            ProtocolError::InvalidExpireFormat => ProtocolErrorView::InvalidExpireFormat,
            ProtocolError::UnknownCommandType(t) => ProtocolErrorView::UnknownCommandType(*t),
            ProtocolError::UnknownResponseType(t) => ProtocolErrorView::UnknownResponseType(*t),
            ProtocolError::InvalidUtf8 => ProtocolErrorView::InvalidUtf8,
            ProtocolError::MissingArguments(t) => ProtocolErrorView::MissingArguments(*t),
            ProtocolError::InvalidNumber => ProtocolErrorView::InvalidNumber,
            ProtocolError::UnknownCommand(w) => ProtocolErrorView::UnknownCommand(w@),
        }
    }
}

} // verus!
