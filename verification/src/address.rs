//! Open Assets addresses: a payment address of the ledger, marked as one that
//! can hold assets, and its checksummed text form.
//!
//! The text form is the base58check text of 22 bytes: the namespace byte, a
//! byte that tells the network, then the twenty bytes of the hash. It does not
//! tell whether the hash is that of a public key or that of a script.

use crate::base58::{
    base58check_text, check_encode_slice, decode, parse_base58check, readable_length,
};
use crate::error::{DecodeError, InvalidPayload};
use crate::hash::digest_at;
use crate::network::Network;
use vstd::prelude::*;
use vstd::slice::*;

verus! {

/// The byte that opens every Open Assets address.
pub const NAMESPACE: u8 = 0x13;

/// The byte that stands for the main network.
pub const VERSION_MAIN: u8 = 0;

/// The byte that stands for the test networks.
pub const VERSION_TEST: u8 = 111;

/// The number of bytes behind the text form of an address.
pub const ENCODED_LEN: usize = 22;

/// What a payment address of the ledger pays to.
#[derive(Clone, Debug, PartialEq, Eq, PartialOrd, Ord, Hash)]
pub enum AddressPayload {
    /// The hash of a public key.
    PubkeyHash([u8; 20]),
    /// The hash of a script.
    ScriptHash([u8; 20]),
    /// A witness program, with its version. No Open Assets address stands for
    /// one.
    WitnessProgram { version: u8, program: Vec<u8> },
}

/// A payment address of the ledger.
#[derive(Clone, Debug, PartialEq, Eq, PartialOrd, Ord, Hash)]
pub struct BtcAddress {
    /// The network on which the address can be paid.
    pub network: Network,
    /// What the address pays to.
    pub payload: AddressPayload,
}

/// An Open Assets address. Its payload is always the hash of a public key or
/// that of a script.
#[derive(Debug, PartialEq, Eq, PartialOrd, Ord, Hash)]
pub struct Address {
    network: Network,
    payload: AddressPayload,
}

/// What a payload holds.
#[verifier::ext_equal]
pub enum AddressPayloadView {
    /// The hash of a public key.
    PubkeyHash(Seq<u8>),
    /// The hash of a script.
    ScriptHash(Seq<u8>),
    /// A witness program, with its version.
    WitnessProgram { version: u8, program: Seq<u8> },
}

/// What an address holds.
#[verifier::ext_equal]
pub struct BtcAddressView {
    /// The network on which the address can be paid.
    pub network: Network,
    /// What the address pays to.
    pub payload: AddressPayloadView,
}

impl AddressPayloadView {
    /// The payload is one of the two hashes.
    pub open spec fn is_hash(self) -> bool {
        self is PubkeyHash || self is ScriptHash
    }

    /// The hash, where the payload is one.
    pub open spec fn hash(self) -> Seq<u8> {
        match self {
            AddressPayloadView::PubkeyHash(hash) => hash,
            AddressPayloadView::ScriptHash(hash) => hash,
            AddressPayloadView::WitnessProgram { .. } => Seq::empty(),
        }
    }
}

impl BtcAddressView {
    /// The address can stand behind an Open Assets address: it pays to a hash
    /// of twenty bytes.
    pub open spec fn pays_to_hash(self) -> bool {
        self.payload.is_hash() && self.payload.hash().len() == 20
    }
}

impl View for AddressPayload {
    type V = AddressPayloadView;

    open spec fn view(&self) -> AddressPayloadView {
        match *self {
            AddressPayload::PubkeyHash(hash) => AddressPayloadView::PubkeyHash(hash@),
            AddressPayload::ScriptHash(hash) => AddressPayloadView::ScriptHash(hash@),
            AddressPayload::WitnessProgram { version, program } => {
                AddressPayloadView::WitnessProgram { version, program: program@ }
            },
        }
    }
}

impl View for BtcAddress {
    type V = BtcAddressView;

    open spec fn view(&self) -> BtcAddressView {
        BtcAddressView { network: self.network, payload: self.payload@ }
    }
}

impl View for Address {
    type V = BtcAddressView;

    /// The payment address behind the Open Assets address.
    closed spec fn view(&self) -> BtcAddressView {
        BtcAddressView { network: self.network, payload: self.payload@ }
    }
}

/// The byte that stands for `network`. The two test networks share one.
pub open spec fn version_of(network: Network) -> u8 {
    match network {
        Network::Bitcoin => VERSION_MAIN,
        Network::Testnet => VERSION_TEST,
        Network::Regtest => VERSION_TEST,
    }
}

/// The bytes behind the text form of an address that pays to a hash.
pub open spec fn address_bytes(address: BtcAddressView) -> Seq<u8> {
    seq![NAMESPACE, version_of(address.network)] + address.payload.hash()
}

/// The text form of an address that pays to a hash.
pub open spec fn address_text(address: BtcAddressView) -> Seq<char> {
    base58check_text(address_bytes(address))
}

/// The address that `data` stands for. The namespace byte is looked at first,
/// then the network byte; behind them there have to be twenty bytes of hash.
/// The hash is taken for that of a public key, and the test version for the
/// public test network: the bytes tell no more.
pub open spec fn parse_address_bytes(data: Seq<u8>) -> Result<BtcAddressView, DecodeError> {
    if data.len() == 0 {
        Err(DecodeError::InvalidLength(0))
    } else if data[0] != NAMESPACE {
        Err(DecodeError::UnrecognizedVersion(data[0]))
    } else if data.len() == 1 {
        Err(DecodeError::InvalidLength(1))
    } else if data[1] != VERSION_MAIN && data[1] != VERSION_TEST {
        Err(DecodeError::UnrecognizedVersion(data[1]))
    } else if data.len() != ENCODED_LEN {
        Err(DecodeError::InvalidLength(data.len() as usize))
    } else {
        Ok(
            BtcAddressView {
                network: if data[1] == VERSION_MAIN {
                    Network::Bitcoin
                } else {
                    Network::Testnet
                },
                payload: AddressPayloadView::PubkeyHash(data.subrange(2, ENCODED_LEN as int)),
            },
        )
    }
}

/// The address that `text` stands for.
pub open spec fn parse_address_text(text: Seq<char>) -> Result<BtcAddressView, DecodeError> {
    match parse_base58check(text) {
        Ok(data) => parse_address_bytes(data),
        Err(e) => Err(e),
    }
}

/// What an address is read back as: the text form tells neither the two kinds
/// of hash apart nor the two test networks, so the hash of a script comes back
/// as that of a public key, and a private test network as the public one.
pub open spec fn read_back(address: BtcAddressView) -> BtcAddressView {
    BtcAddressView {
        network: if address.network == Network::Regtest {
            Network::Testnet
        } else {
            address.network
        },
        payload: AddressPayloadView::PubkeyHash(address.payload.hash()),
    }
}

/// Reading the bytes of an address gives the address back, up to the kind of
/// its hash and the test network it names.
pub proof fn lemma_address_bytes_read_back(address: BtcAddressView)
    requires
        address.pays_to_hash(),
    ensures
        parse_address_bytes(address_bytes(address)) == Ok::<BtcAddressView, DecodeError>(
            read_back(address),
        ),
{
    assert(address_bytes(address).subrange(2, ENCODED_LEN as int) =~= address.payload.hash());
}

/// Reading the bytes of an address that pays to the hash of a public key, on
/// the main network or the public test network, gives the address back.
pub proof fn lemma_address_bytes_round_trip(address: BtcAddressView)
    requires
        address.payload is PubkeyHash,
        address.payload.hash().len() == 20,
        address.network != Network::Regtest,
    ensures
        parse_address_bytes(address_bytes(address)) == Ok::<BtcAddressView, DecodeError>(address),
{
    lemma_address_bytes_read_back(address);
}

/// The two kinds of hash have one text form: an address that pays to the hash
/// of a script is written like the one that pays to a public key with the same
/// hash.
pub proof fn lemma_address_text_ignores_kind(network: Network, hash: Seq<u8>)
    ensures
        address_text(BtcAddressView { network, payload: AddressPayloadView::ScriptHash(hash) })
            == address_text(
            BtcAddressView { network, payload: AddressPayloadView::PubkeyHash(hash) },
        ),
{
}

/// A copy of a payload.
fn copy_payload(payload: &AddressPayload) -> (copy: AddressPayload)
    ensures
        copy@ == payload@,
{
    match payload {
        AddressPayload::PubkeyHash(hash) => AddressPayload::PubkeyHash(*hash),
        AddressPayload::ScriptHash(hash) => AddressPayload::ScriptHash(*hash),
        AddressPayload::WitnessProgram { version, program } => AddressPayload::WitnessProgram {
            version: *version,
            program: slice_to_vec(program.as_slice()),
        },
    }
}

impl Address {
    /// No address holds a witness program.
    #[verifier::type_invariant]
    spec fn pays_to_hash(&self) -> bool {
        self.payload@.is_hash()
    }

    /// The Open Assets address of a payment address. A payload that is not a
    /// hash is refused.
    pub fn new(payload: AddressPayload, network: Network) -> (r: Result<Address, InvalidPayload>)
        ensures
            match r {
                Ok(address) => payload@.is_hash() && address@ == (BtcAddressView {
                    network,
                    payload: payload@,
                }),
                Err(_) => !payload@.is_hash(),
            },
    {
        match payload {
            AddressPayload::WitnessProgram { .. } => Err(InvalidPayload),
            _ => Ok(Address { network, payload }),
        }
    }

    /// The network of the address.
    pub fn network(&self) -> (network: Network)
        ensures
            network == self@.network,
    {
        self.network
    }

    /// What the address pays to: always a hash.
    pub fn payload(&self) -> (payload: &AddressPayload)
        ensures
            payload@ == self@.payload,
            self@.pays_to_hash(),
    {
        proof {
            use_type_invariant(self);
        }
        &self.payload
    }

    /// The payment address behind the Open Assets address.
    pub fn to_btc_addr(&self) -> (address: BtcAddress)
        ensures
            address@ == self@,
            self@.pays_to_hash(),
    {
        proof {
            use_type_invariant(self);
        }
        BtcAddress { network: self.network, payload: copy_payload(&self.payload) }
    }

    /// The bytes behind the text form.
    pub fn to_bytes(&self) -> (bytes: Vec<u8>)
        ensures
            bytes@ == address_bytes(self@),
            bytes@.len() == ENCODED_LEN,
    {
        proof {
            use_type_invariant(self);
        }
        let mut bytes: Vec<u8> = Vec::new();
        bytes.push(NAMESPACE);
        bytes.push(
            match self.network {
                Network::Bitcoin => VERSION_MAIN,
                Network::Testnet => VERSION_TEST,
                Network::Regtest => VERSION_TEST,
            },
        );
        match &self.payload {
            AddressPayload::PubkeyHash(hash) => bytes.extend_from_slice(hash.as_slice()),
            AddressPayload::ScriptHash(hash) => bytes.extend_from_slice(hash.as_slice()),
            AddressPayload::WitnessProgram { .. } => {},
        }
        bytes
    }

    /// Reads an address from the bytes behind a text form.
    pub fn from_bytes(data: &[u8]) -> (r: Result<Address, DecodeError>)
        ensures
            match parse_address_bytes(data@) {
                Ok(address) => r matches Ok(found) && found@ == address,
                Err(e) => r matches Err(f) && f == e,
            },
    {
        if data.len() == 0 {
            return Err(DecodeError::InvalidLength(0));
        }
        if data[0] != NAMESPACE {
            return Err(DecodeError::UnrecognizedVersion(data[0]));
        }
        if data.len() == 1 {
            return Err(DecodeError::InvalidLength(1));
        }
        let network = if data[1] == VERSION_MAIN {
            Network::Bitcoin
        } else if data[1] == VERSION_TEST {
            Network::Testnet
        } else {
            return Err(DecodeError::UnrecognizedVersion(data[1]));
        };
        if data.len() != ENCODED_LEN {
            return Err(DecodeError::InvalidLength(data.len()));
        }
        Ok(Address { network, payload: AddressPayload::PubkeyHash(digest_at(data, 2)) })
    }

    /// The text form.
    pub fn to_string(&self) -> (text: String)
        ensures
            text@ == address_text(self@),
    {
        check_encode_slice(self.to_bytes().as_slice())
    }

    /// Reads an address from its text form.
    ///
    /// Where `s` is the text form of an address, that address comes back:
    /// itself where it pays to the hash of a public key on the main network or
    /// the public test network, and as `read_back` says where it does not.
    pub fn from_str(s: &str) -> (r: Result<Address, DecodeError>)
        requires
            readable_length(s),
        ensures
            match parse_address_text(s@) {
                Ok(address) => r matches Ok(found) && found@ == address,
                Err(e) => r matches Err(f) && f == e,
            },
            forall|address: BtcAddressView|
                address.pays_to_hash() && #[trigger] address_text(address) == s@ ==> (
                r matches Ok(found) && found@ == read_back(address)),
    {
        match decode(s) {
            Ok(data) => {
                let r = Address::from_bytes(data.as_slice());
                assert forall|address: BtcAddressView|
                    address.pays_to_hash() && #[trigger] address_text(address) == s@ implies (
                r matches Ok(found) && found@ == read_back(address)) by {
                    lemma_address_bytes_read_back(address);
                }
                r
            },
            Err(e) => Err(e),
        }
    }
}

impl Clone for Address {
    fn clone(&self) -> (copy: Self)
        ensures
            copy@ == self@,
    {
        proof {
            use_type_invariant(self);
        }
        Address { network: self.network, payload: copy_payload(&self.payload) }
    }
}

/// Payment addresses that may stand behind an Open Assets address.
pub trait OAAddressConverter {
    /// The payment address.
    spec fn btc_address(&self) -> BtcAddressView;

    /// The Open Assets address of the payment address. One that does not pay
    /// to a hash has none.
    fn to_oa_address(&self) -> (r: Result<Address, InvalidPayload>)
        ensures
            match r {
                Ok(address) => self.btc_address().payload.is_hash() && address@
                    == self.btc_address(),
                Err(_) => !self.btc_address().payload.is_hash(),
            },
    ;
}

impl OAAddressConverter for BtcAddress {
    open spec fn btc_address(&self) -> BtcAddressView {
        self@
    }

    fn to_oa_address(&self) -> (r: Result<Address, InvalidPayload>) {
        Address::new(copy_payload(&self.payload), self.network)
    }
}

} // verus!
