//! Data encodings of the Open Assets protocol: the marker payload that a
//! transaction output carries, and the checksummed text forms of addresses and
//! asset identifiers.

pub mod address;
pub mod asset_id;
pub mod base58;
pub mod compact_size;
pub mod error;
pub mod hash;
pub mod leb128;
pub mod marker_output;
pub mod network;
pub mod script;
