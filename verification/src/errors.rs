use vstd::prelude::*;

verus! {

/// Everything that can go wrong while encoding, decoding or exchanging
/// handshake messages.
#[derive(Debug, Clone, Copy, PartialEq, Eq)]
pub enum HandshakeError {
    /// An endpoint string is not a dotted-decimal IPv4 address.
    AddressParseError,
    /// Fewer bytes are available than a field requires.
    TruncatedInput,
    /// The user-agent bytes are not valid UTF-8.
    InvalidUtf8,
    /// The user-agent length byte does not fit in its low seven bits.
    UserAgentTooLong,
    /// The magic bytes do not name the expected network.
    InvalidMagic,
    /// The command bytes of a header match no recognised command.
    UnknownCommand,
    /// A recognised command arrived out of sequence.
    UnexpectedCommand,
    /// The checksum of a header disagrees with the payload it announces.
    ChecksumMismatch,
    /// The underlying stream failed or was closed early.
    TransportError,
}

impl HandshakeError {
    /// The message of this error.
    pub fn message(&self) -> (text: &'static str)
        ensures
            text@ == self.message_text(),
    {
        match self {
            HandshakeError::AddressParseError => "Parse error: invalid IPv4 address syntax",
            HandshakeError::TruncatedInput => "There was an error decoding bytes: input is truncated",
            HandshakeError::InvalidUtf8 => "There was an error decoding bytes: invalid UTF-8",
            HandshakeError::UserAgentTooLong => "There was an error decoding bytes: user agent is too long",
            HandshakeError::InvalidMagic => "Invalid magic bytes",
            HandshakeError::UnknownCommand => "Invalid header command",
            HandshakeError::UnexpectedCommand => "Unexpected header command",
            HandshakeError::ChecksumMismatch => "There was an error calculating the checksum",
            HandshakeError::TransportError => "There was an error while reading from the socket",
        }
    }

    /// The text that `message` returns.
    pub open spec fn message_text(&self) -> Seq<char> {
        match self {
            HandshakeError::AddressParseError => "Parse error: invalid IPv4 address syntax"@,
            HandshakeError::TruncatedInput => "There was an error decoding bytes: input is truncated"@,
            HandshakeError::InvalidUtf8 => "There was an error decoding bytes: invalid UTF-8"@,
            HandshakeError::UserAgentTooLong => "There was an error decoding bytes: user agent is too long"@,
            HandshakeError::InvalidMagic => "Invalid magic bytes"@,
            HandshakeError::UnknownCommand => "Invalid header command"@,
            HandshakeError::UnexpectedCommand => "Unexpected header command"@,
            HandshakeError::ChecksumMismatch => "There was an error calculating the checksum"@,
            HandshakeError::TransportError => "There was an error while reading from the socket"@,
        }
    }
}

} // verus!
