//! Checksummed base58 text, as the `bitcoin` crate writes and reads it: the
//! data, followed by the first four bytes of its double SHA-256, in base 58.
//!
//! The encoding itself is not spelled out here. It has a name,
//! `base58check_text`, and reading is stated as its inverse.

use crate::error::DecodeError;
use vstd::prelude::*;
use vstd::string::*;

verus! {

/// The text that `bitcoin::util::base58::check_encode_slice` gives for `data`.
pub uninterp spec fn base58check_text(data: Seq<u8>) -> Seq<char>;

/// The error type of the `bitcoin` crate's base58 functions.
#[verifier::external_type_specification]
#[verifier::external_body]
pub struct ExBase58Error(bitcoin::util::base58::Error);

/// `text` is the checksummed base58 form of some data.
pub open spec fn is_base58check(text: Seq<char>) -> bool {
    exists|data: Seq<u8>| base58check_text(data) == text
}

/// The data that `text` is the checksummed base58 form of.
pub open spec fn base58check_data(text: Seq<char>) -> Seq<u8> {
    choose|data: Seq<u8>| base58check_text(data) == text
}

/// What reading `text` gives.
pub open spec fn parse_base58check(text: Seq<char>) -> Result<Seq<u8>, DecodeError> {
    if is_base58check(text) {
        Ok(base58check_data(text))
    } else {
        Err(DecodeError::Base58)
    }
}

/// A text is short enough to be read: the reader of the `bitcoin` crate sizes
/// its buffer from eleven times the length of the text in bytes.
pub open spec fn readable_length(text: &str) -> bool {
    text.len() * 11 <= usize::MAX
}

/// Calls `bitcoin::util::base58::check_encode_slice`. The contract gives the
/// result its name.
#[verifier::external_body]
pub(crate) fn check_encode_slice(data: &[u8]) -> (text: String)
    ensures
        text@ == base58check_text(data@),
{
    bitcoin::util::base58::check_encode_slice(data)
}

/// Calls `bitcoin::util::base58::from_check`, the inverse of
/// `check_encode_slice`. The contract claims that it is the inverse: the data
/// that comes back has `text` as its checksummed form and is the only data
/// that has, and an error comes back only where `text` is the checksummed form
/// of no data. (Every digit string stands for one byte string and every byte
/// string for one digit string, so no text has two readings.)
///
/// The reader would look the byte 128 up in a table of 128 entries, but it
/// returns at the first byte above 128, and in a `str` the first byte that is
/// not ASCII is above 128.
#[verifier::external_body]
pub(crate) fn from_check(text: &str) -> (r: Result<Vec<u8>, bitcoin::util::base58::Error>)
    requires
        readable_length(text),
    ensures
        r matches Ok(found) ==> base58check_text(found@) == text@,
        r matches Ok(found) ==> forall|data: Seq<u8>| #[trigger]
            base58check_text(data) == text@ ==> data == found@,
        r is Err ==> forall|data: Seq<u8>| #[trigger] base58check_text(data) != text@,
{
    bitcoin::util::base58::from_check(text)
}

/// Reads checksummed base58 text. Text that is not base58, or whose checksum
/// does not fit, is refused.
pub fn decode(text: &str) -> (r: Result<Vec<u8>, DecodeError>)
    requires
        readable_length(text),
    ensures
        match parse_base58check(text@) {
            Ok(data) => r matches Ok(found) && found@ == data,
            Err(e) => r matches Err(f) && f == e,
        },
        forall|data: Seq<u8>| #[trigger]
            base58check_text(data) == text@ ==> (r matches Ok(found) && found@ == data),
{
    match from_check(text) {
        Ok(data) => Ok(data),
        Err(_) => Err(DecodeError::Base58),
    }
}

} // verus!
