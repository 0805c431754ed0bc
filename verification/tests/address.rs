use openassets::address::{Address, AddressPayload, BtcAddress, OAAddressConverter};
use openassets::error::{DecodeError, InvalidPayload};
use openassets::network::Network;
use std::str::FromStr;

fn network(network: bitcoin::network::constants::Network) -> Network {
    match network {
        bitcoin::network::constants::Network::Bitcoin => Network::Bitcoin,
        bitcoin::network::constants::Network::Testnet => Network::Testnet,
        bitcoin::network::constants::Network::Regtest => Network::Regtest,
    }
}

fn hash(bytes: &[u8]) -> [u8; 20] {
    let mut hash = [0u8; 20];
    hash.copy_from_slice(bytes);
    hash
}

/// The payment address that `text` stands for, as this library holds it.
fn btc_address(text: &str) -> BtcAddress {
    let address = bitcoin::Address::from_str(text).unwrap();
    BtcAddress {
        network: network(address.network),
        payload: match address.payload {
            bitcoin::util::address::Payload::PubkeyHash(h) => {
                AddressPayload::PubkeyHash(hash(&h[..]))
            }
            bitcoin::util::address::Payload::ScriptHash(h) => {
                AddressPayload::ScriptHash(hash(&h[..]))
            }
            bitcoin::util::address::Payload::WitnessProgram(w) => AddressPayload::WitnessProgram {
                version: w.version().to_u8(),
                program: w.program().to_vec(),
            },
        },
    }
}

#[test]
fn test_oa_address_converter() {
    let addr = btc_address("1F2AQr6oqNtcJQ6p9SiCLQTrHuM9en44H8");
    assert_eq!(
        "akQz3f1v9JrnJAeGBC4pNzGNRdWXKan4U6E",
        addr.to_oa_address().unwrap().to_string()
    );
    assert_eq!(addr, addr.to_oa_address().unwrap().to_btc_addr());

    let testnet_addr = btc_address("mkgW6hNYBctmqDtTTsTJrsf2Gh2NPtoCU4");
    assert_eq!(
        "bWvePLsBsf6nThU3pWVZVWjZbcJCYQxHCpE",
        testnet_addr.to_oa_address().unwrap().to_string()
    );
    assert_eq!(
        testnet_addr,
        testnet_addr.to_oa_address().unwrap().to_btc_addr()
    );

    let segwit_addr = btc_address("bc1qvzvkjn4q3nszqxrv3nraga2r822xjty3ykvkuw");
    assert!(segwit_addr.to_oa_address().is_err());
}

#[test]
fn address_keeps_what_it_was_made_of() {
    let pubkey = AddressPayload::PubkeyHash([7; 20]);
    let address = Address::new(pubkey.clone(), Network::Regtest).unwrap();
    assert_eq!(address.network(), Network::Regtest);
    assert_eq!(address.payload(), &pubkey);
    assert_eq!(
        address.to_btc_addr(),
        BtcAddress {
            network: Network::Regtest,
            payload: pubkey,
        }
    );
    assert_eq!(address.clone(), address);

    let script = AddressPayload::ScriptHash([9; 20]);
    let address = Address::new(script.clone(), Network::Bitcoin).unwrap();
    assert_eq!(address.network(), Network::Bitcoin);
    assert_eq!(address.payload(), &script);
}

#[test]
fn address_of_a_witness_program_is_refused() {
    for network in [Network::Bitcoin, Network::Testnet, Network::Regtest] {
        let witness = AddressPayload::WitnessProgram {
            version: 0,
            program: vec![0x11; 20],
        };
        assert_eq!(Address::new(witness.clone(), network), Err(InvalidPayload));
        let base = BtcAddress {
            network,
            payload: witness,
        };
        assert_eq!(base.to_oa_address(), Err(InvalidPayload));
    }
}

#[test]
fn address_bytes() {
    let digest = [
        0x10, 0x11, 0x12, 0x13, 0x14, 0x15, 0x16, 0x17, 0x18, 0x19, 0x1a, 0x1b, 0x1c, 0x1d, 0x1e,
        0x1f, 0x20, 0x21, 0x22, 0x23,
    ];
    let mut expected = vec![0x13, 0x00];
    expected.extend_from_slice(&digest);
    let main = Address::new(AddressPayload::PubkeyHash(digest), Network::Bitcoin).unwrap();
    assert_eq!(main.to_bytes(), expected);
    let main_script = Address::new(AddressPayload::ScriptHash(digest), Network::Bitcoin).unwrap();
    assert_eq!(main_script.to_bytes(), expected);
    assert_eq!(Address::from_bytes(&expected), Ok(main));

    expected[1] = 111;
    let test = Address::new(AddressPayload::PubkeyHash(digest), Network::Testnet).unwrap();
    let private = Address::new(AddressPayload::ScriptHash(digest), Network::Regtest).unwrap();
    assert_eq!(test.to_bytes(), expected);
    assert_eq!(private.to_bytes(), expected);
    assert_eq!(Address::from_bytes(&expected), Ok(test));
}

#[test]
fn address_bytes_refused() {
    assert_eq!(Address::from_bytes(&[]), Err(DecodeError::InvalidLength(0)));
    assert_eq!(
        Address::from_bytes(&[0x17; 22]),
        Err(DecodeError::UnrecognizedVersion(0x17))
    );
    assert_eq!(
        Address::from_bytes(&[0x13]),
        Err(DecodeError::InvalidLength(1))
    );
    let mut bytes = vec![0x13, 0x05];
    bytes.extend_from_slice(&[0; 20]);
    assert_eq!(
        Address::from_bytes(&bytes),
        Err(DecodeError::UnrecognizedVersion(0x05))
    );
    // the bytes in front are looked at before the length
    assert_eq!(
        Address::from_bytes(&[0x13, 0xc4]),
        Err(DecodeError::UnrecognizedVersion(0xc4))
    );
    bytes[1] = 0x00;
    bytes.push(0);
    assert_eq!(
        Address::from_bytes(&bytes),
        Err(DecodeError::InvalidLength(23))
    );
    assert_eq!(
        Address::from_bytes(&bytes[..21]),
        Err(DecodeError::InvalidLength(21))
    );
    assert!(Address::from_bytes(&bytes[..22]).is_ok());
}

#[test]
fn address_text_round_trip() {
    let main = btc_address("1F2AQr6oqNtcJQ6p9SiCLQTrHuM9en44H8")
        .to_oa_address()
        .unwrap();
    assert_eq!(
        Address::from_str("akQz3f1v9JrnJAeGBC4pNzGNRdWXKan4U6E"),
        Ok(main.clone())
    );
    assert_eq!(Address::from_str(&main.to_string()), Ok(main));

    let test = btc_address("mkgW6hNYBctmqDtTTsTJrsf2Gh2NPtoCU4")
        .to_oa_address()
        .unwrap();
    assert_eq!(
        Address::from_str("bWvePLsBsf6nThU3pWVZVWjZbcJCYQxHCpE"),
        Ok(test)
    );
}

#[test]
fn address_text_tells_neither_kind_nor_test_network() {
    let pubkey = Address::new(AddressPayload::PubkeyHash([0x33; 20]), Network::Testnet).unwrap();
    let script = Address::new(AddressPayload::ScriptHash([0x33; 20]), Network::Regtest).unwrap();
    assert_eq!(script.to_string(), pubkey.to_string());
    assert_eq!(Address::from_str(&script.to_string()), Ok(pubkey));
}

#[test]
fn address_text_refused() {
    assert_eq!(
        Address::from_str("akQz3f1v9JrnJAeGBC4pNzGNRdWXKan4U6F"),
        Err(DecodeError::Base58)
    );
    assert_eq!(
        Address::from_str("akQz3f1v9JrnJAeGBC4pNzGNRdWXKan4U6l"),
        Err(DecodeError::Base58)
    );
    // an asset identifier, and a payment address
    assert_eq!(
        Address::from_str("ALn3aK1fSuG27N96UGYB1kUYUpGKRhBuBC"),
        Err(DecodeError::UnrecognizedVersion(0x17))
    );
    assert_eq!(
        Address::from_str("1F2AQr6oqNtcJQ6p9SiCLQTrHuM9en44H8"),
        Err(DecodeError::UnrecognizedVersion(0x00))
    );
}
