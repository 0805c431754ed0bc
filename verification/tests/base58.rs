use openassets::asset_id::AssetId;
use openassets::base58::decode;
use openassets::error::DecodeError;
use openassets::network::Network;

#[test]
fn base58check_known_text() {
    // a main-network payment address: version 0, then the hash of a public key
    let mut data = vec![0x00];
    data.extend_from_slice(&[
        0x01, 0x09, 0x66, 0x77, 0x60, 0x06, 0x95, 0x3d, 0x55, 0x67, 0x43, 0x9e, 0x5e, 0x39, 0xf8,
        0x6a, 0x0d, 0x27, 0x3b, 0xee,
    ]);
    assert_eq!(decode("16UwLL9Risc3QfPqBUvKofHmBQ7wMtjvM"), Ok(data));
}

#[test]
fn base58check_reads_what_was_written() {
    for hash in [[0u8; 20], [1; 20], [0xff; 20]] {
        let id = AssetId {
            hash,
            network: Network::Bitcoin,
        };
        let text = id.to_string();
        assert_ne!(text.as_bytes(), &id.to_bytes()[..]);
        assert_eq!(decode(&text), Ok(id.to_bytes()));
    }
}

#[test]
fn base58check_refused() {
    assert_eq!(decode(""), Err(DecodeError::Base58));
    assert_eq!(decode("1"), Err(DecodeError::Base58));
    assert_eq!(decode("0"), Err(DecodeError::Base58));
    assert_eq!(
        decode("16UwLL9Risc3QfPqBUvKofHmBQ7wMtjvN"),
        Err(DecodeError::Base58)
    );
    assert_eq!(
        decode("16UwLL9Risc3QfPqBUvKofHmBQ7wMtjv"),
        Err(DecodeError::Base58)
    );
    assert_eq!(decode("\u{80}"), Err(DecodeError::Base58));
    assert_eq!(decode("1\u{7f}"), Err(DecodeError::Base58));
}

#[test]
fn base58check_of_no_data() {
    // the four checksum bytes of the empty string, and nothing before them
    assert_eq!(decode("3QJmnh"), Ok(vec![]));
}
