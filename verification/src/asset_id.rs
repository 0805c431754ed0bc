//! Asset identifiers: the digest of the script that issued the asset, with the
//! network it lives on, and their checksummed text form.
//!
//! The text form is the base58check text of 21 bytes: a version byte that
//! tells the network, then the digest.

use crate::base58::{
    base58check_text, check_encode_slice, decode, parse_base58check, readable_length,
};
use crate::error::DecodeError;
use crate::hash::{digest_at, hash160, hash160_digest};
use crate::network::Network;
use vstd::prelude::*;

verus! {

/// The version byte of identifiers on the main network.
pub const VERSION_MAIN: u8 = 0x17;

/// The version byte of identifiers on the test networks.
pub const VERSION_TEST: u8 = 0x73;

/// The number of bytes behind the text form of an identifier.
pub const ENCODED_LEN: usize = 21;

/// The name of an asset.
#[derive(PartialEq, Eq, Debug, Clone)]
pub struct AssetId {
    /// The digest of the script that issued the asset.
    pub hash: [u8; 20],
    /// The network on which the asset lives.
    pub network: Network,
}

/// What an identifier holds.
#[verifier::ext_equal]
pub struct AssetIdView {
    /// The digest of the script that issued the asset.
    pub hash: Seq<u8>,
    /// The network on which the asset lives.
    pub network: Network,
}

impl View for AssetId {
    type V = AssetIdView;

    open spec fn view(&self) -> AssetIdView {
        AssetIdView { hash: self.hash@, network: self.network }
    }
}

/// The version byte that stands for `network`. The two test networks share one.
pub open spec fn version_of(network: Network) -> u8 {
    match network {
        Network::Bitcoin => VERSION_MAIN,
        Network::Testnet => VERSION_TEST,
        Network::Regtest => VERSION_TEST,
    }
}

/// The bytes behind the text form of an identifier.
pub open spec fn id_bytes(id: AssetIdView) -> Seq<u8> {
    seq![version_of(id.network)] + id.hash
}

/// The text form of an identifier.
pub open spec fn id_text(id: AssetIdView) -> Seq<char> {
    base58check_text(id_bytes(id))
}

/// The identifier that `data` stands for. The version byte is looked at first;
/// behind a known one there have to be twenty bytes of digest. The test
/// version reads as the public test network.
pub open spec fn parse_id_bytes(data: Seq<u8>) -> Result<AssetIdView, DecodeError> {
    if data.len() == 0 {
        Err(DecodeError::InvalidLength(0))
    } else if data[0] != VERSION_MAIN && data[0] != VERSION_TEST {
        Err(DecodeError::UnrecognizedVersion(data[0]))
    } else if data.len() != ENCODED_LEN {
        Err(DecodeError::InvalidLength(data.len() as usize))
    } else {
        Ok(
            AssetIdView {
                hash: data.subrange(1, ENCODED_LEN as int),
                network: if data[0] == VERSION_MAIN {
                    Network::Bitcoin
                } else {
                    Network::Testnet
                },
            },
        )
    }
}

/// The identifier that `text` stands for.
pub open spec fn parse_id_text(text: Seq<char>) -> Result<AssetIdView, DecodeError> {
    match parse_base58check(text) {
        Ok(data) => parse_id_bytes(data),
        Err(e) => Err(e),
    }
}

/// What an identifier is read back as: itself, but that the text form does not
/// tell the two test networks apart, so that one of a private test network
/// comes back as one of the public test network.
pub open spec fn read_back(id: AssetIdView) -> AssetIdView {
    AssetIdView {
        hash: id.hash,
        network: if id.network == Network::Regtest {
            Network::Testnet
        } else {
            id.network
        },
    }
}

/// Reading the bytes of an identifier gives the identifier back, up to the
/// test network it names.
pub proof fn lemma_id_bytes_read_back(id: AssetIdView)
    requires
        id.hash.len() == 20,
    ensures
        parse_id_bytes(id_bytes(id)) == Ok::<AssetIdView, DecodeError>(read_back(id)),
{
    assert(id_bytes(id).subrange(1, ENCODED_LEN as int) =~= id.hash);
}

/// Reading the bytes of an identifier of the main network or of the public
/// test network gives the identifier back.
pub proof fn lemma_id_bytes_round_trip(id: AssetIdView)
    requires
        id.hash.len() == 20,
        id.network != Network::Regtest,
    ensures
        parse_id_bytes(id_bytes(id)) == Ok::<AssetIdView, DecodeError>(id),
{
    lemma_id_bytes_read_back(id);
}

impl AssetId {
    /// The identifier of the asset that `script` issues on `network`.
    pub fn new(script: &[u8], network: Network) -> (id: AssetId)
        ensures
            id@ == (AssetIdView { hash: hash160_digest(script@), network }),
    {
        AssetId { hash: hash160(script), network }
    }

    /// The bytes behind the text form.
    pub fn to_bytes(&self) -> (bytes: Vec<u8>)
        ensures
            bytes@ == id_bytes(self@),
    {
        let mut bytes: Vec<u8> = Vec::new();
        bytes.push(
            match self.network {
                Network::Bitcoin => VERSION_MAIN,
                Network::Testnet => VERSION_TEST,
                Network::Regtest => VERSION_TEST,
            },
        );
        bytes.extend_from_slice(self.hash.as_slice());
        bytes
    }

    /// Reads an identifier from the bytes behind a text form.
    pub fn from_bytes(data: &[u8]) -> (r: Result<AssetId, DecodeError>)
        ensures
            match parse_id_bytes(data@) {
                Ok(id) => r matches Ok(found) && found@ == id,
                Err(e) => r matches Err(f) && f == e,
            },
    {
        if data.len() == 0 {
            return Err(DecodeError::InvalidLength(0));
        }
        let network = if data[0] == VERSION_MAIN {
            Network::Bitcoin
        } else if data[0] == VERSION_TEST {
            Network::Testnet
        } else {
            return Err(DecodeError::UnrecognizedVersion(data[0]));
        };
        if data.len() != ENCODED_LEN {
            return Err(DecodeError::InvalidLength(data.len()));
        }
        Ok(AssetId { hash: digest_at(data, 1), network })
    }

    /// The text form.
    pub fn to_string(&self) -> (text: String)
        ensures
            text@ == id_text(self@),
    {
        check_encode_slice(self.to_bytes().as_slice())
    }

    /// Reads an identifier from its text form.
    ///
    /// Where `s` is the text form of an identifier, that identifier comes
    /// back: itself where it is one of the main network or of the public test
    /// network, and as `read_back` says where it is one of a private one.
    pub fn from_str(s: &str) -> (r: Result<AssetId, DecodeError>)
        requires
            readable_length(s),
        ensures
            match parse_id_text(s@) {
                Ok(id) => r matches Ok(found) && found@ == id,
                Err(e) => r matches Err(f) && f == e,
            },
            forall|id: AssetId| #[trigger]
                id_text(id@) == s@ ==> (r matches Ok(found) && found@ == read_back(id@)),
    {
        match decode(s) {
            Ok(data) => {
                let r = AssetId::from_bytes(data.as_slice());
                assert forall|id: AssetId| #[trigger] id_text(id@) == s@ implies (r matches Ok(
                    found,
                ) && found@ == read_back(id@)) by {
                    lemma_id_bytes_read_back(id@);
                }
                r
            },
            Err(e) => Err(e),
        }
    }
}

} // verus!
