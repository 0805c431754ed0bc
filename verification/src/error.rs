use vstd::prelude::*;

verus! {

/// Why a value could not be read from bytes or text.
#[derive(Clone, Copy, Debug, PartialEq, Eq, Structural)]
pub enum DecodeError {
    /// The data ends inside the four header bytes.
    TruncatedHeader,
    /// The first two bytes are not the marker constant.
    InvalidMarker,
    /// The third and fourth bytes are not the supported version.
    InvalidVersion,
    /// The data ends inside a compact length prefix.
    TruncatedLength,
    /// A compact length prefix is longer than its value needs.
    MalformedLength,
    /// The data ends before a quantity's last byte.
    TruncatedVarint,
    /// Fewer metadata bytes are left than the length prefix announces.
    TruncatedMetadata,
    /// The text is not base58, or its checksum does not match.
    Base58,
    /// A byte at the front of the decoded text is not one that the encoding
    /// knows; the byte is given.
    UnrecognizedVersion(u8),
    /// The decoded text holds this many bytes, which is not the length of the
    /// encoding.
    InvalidLength(usize),
}

/// The payload of an address is neither a public key hash nor a script hash.
#[derive(Clone, Copy, Debug, PartialEq, Eq, Structural)]
pub struct InvalidPayload;

impl DecodeError {
    /// Errors that say the data ended before a field was complete.
    pub open spec fn is_truncation(self) -> bool {
        self == DecodeError::TruncatedHeader || self == DecodeError::TruncatedLength
            || self == DecodeError::TruncatedVarint || self == DecodeError::TruncatedMetadata
    }
}

} // verus!
