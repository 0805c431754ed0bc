use openassets::compact_size::{read_compact_size, write_compact_size};
use openassets::error::DecodeError;
use openassets::leb128::{read_leb128, write_leb128};

fn compact(n: u64) -> Vec<u8> {
    let mut out = Vec::new();
    write_compact_size(n, &mut out);
    out
}

fn leb(value: u64) -> Vec<u8> {
    let mut out = Vec::new();
    write_leb128(value, &mut out);
    out
}

#[test]
fn compact_size_exact_bytes() {
    assert_eq!(compact(0), vec![0x00]);
    assert_eq!(compact(0xfc), vec![0xfc]);
    assert_eq!(compact(0xfd), vec![0xfd, 0xfd, 0x00]);
    assert_eq!(compact(0x1234), vec![0xfd, 0x34, 0x12]);
    assert_eq!(compact(0xffff), vec![0xfd, 0xff, 0xff]);
    assert_eq!(compact(0x1_0000), vec![0xfe, 0x00, 0x00, 0x01, 0x00]);
    assert_eq!(compact(0x1234_5678), vec![0xfe, 0x78, 0x56, 0x34, 0x12]);
    assert_eq!(compact(0xffff_ffff), vec![0xfe, 0xff, 0xff, 0xff, 0xff]);
    assert_eq!(
        compact(0x1_0000_0000),
        vec![0xff, 0x00, 0x00, 0x00, 0x00, 0x01, 0x00, 0x00, 0x00]
    );
    assert_eq!(
        compact(0x0102_0304_0506_0708),
        vec![0xff, 0x08, 0x07, 0x06, 0x05, 0x04, 0x03, 0x02, 0x01]
    );
    assert_eq!(compact(u64::MAX), vec![0xff; 9]);
}

#[test]
fn compact_size_appends() {
    let mut out = vec![1, 2];
    write_compact_size(0xfd, &mut out);
    write_compact_size(7, &mut out);
    assert_eq!(out, vec![1, 2, 0xfd, 0xfd, 0x00, 7]);
}

#[test]
fn compact_size_reads_back() {
    for n in [
        0,
        1,
        0xfc,
        0xfd,
        0xfe,
        0xff,
        0x100,
        0xffff,
        0x1_0000,
        0xffff_ffff,
        0x1_0000_0000,
        u64::MAX - 1,
        u64::MAX,
    ] {
        let mut bytes = compact(n);
        let len = bytes.len();
        assert_eq!(read_compact_size(&bytes), Ok((n, len)));
        bytes.push(0xee);
        assert_eq!(read_compact_size(&bytes), Ok((n, len)));
        for cut in 0..len {
            assert_eq!(
                read_compact_size(&bytes[..cut]),
                Err(DecodeError::TruncatedLength)
            );
        }
    }
}

#[test]
fn compact_size_refuses_long_forms() {
    assert_eq!(
        read_compact_size(&[0xfd, 0x00, 0x00]),
        Err(DecodeError::MalformedLength)
    );
    assert_eq!(
        read_compact_size(&[0xfd, 0xfc, 0x00]),
        Err(DecodeError::MalformedLength)
    );
    assert_eq!(read_compact_size(&[0xfd, 0xfd, 0x00]), Ok((0xfd, 3)));
    assert_eq!(
        read_compact_size(&[0xfe, 0xff, 0xff, 0x00, 0x00]),
        Err(DecodeError::MalformedLength)
    );
    assert_eq!(
        read_compact_size(&[0xfe, 0x00, 0x00, 0x01, 0x00]),
        Ok((0x1_0000, 5))
    );
    assert_eq!(
        read_compact_size(&[0xff, 0xff, 0xff, 0xff, 0xff, 0x00, 0x00, 0x00, 0x00]),
        Err(DecodeError::MalformedLength)
    );
    assert_eq!(
        read_compact_size(&[0xff, 0x00, 0x00, 0x00, 0x00, 0x01, 0x00, 0x00, 0x00]),
        Ok((0x1_0000_0000, 9))
    );
    // the form is judged before the lack of bytes is
    assert_eq!(read_compact_size(&[0xfd, 0x00]), Err(DecodeError::TruncatedLength));
}

#[test]
fn leb128_exact_bytes() {
    assert_eq!(leb(0), vec![0x00]);
    assert_eq!(leb(1), vec![0x01]);
    assert_eq!(leb(127), vec![0x7f]);
    assert_eq!(leb(128), vec![0x80, 0x01]);
    assert_eq!(leb(300), vec![0xac, 0x02]);
    assert_eq!(leb(12857), vec![0xb9, 0x64]);
    assert_eq!(leb(16383), vec![0xff, 0x7f]);
    assert_eq!(leb(16384), vec![0x80, 0x80, 0x01]);
    assert_eq!(
        leb(1 << 63),
        vec![0x80, 0x80, 0x80, 0x80, 0x80, 0x80, 0x80, 0x80, 0x80, 0x01]
    );
    assert_eq!(
        leb(u64::MAX),
        vec![0xff, 0xff, 0xff, 0xff, 0xff, 0xff, 0xff, 0xff, 0xff, 0x01]
    );
}

#[test]
fn leb128_appends() {
    let mut out = vec![9];
    write_leb128(128, &mut out);
    write_leb128(0, &mut out);
    assert_eq!(out, vec![9, 0x80, 0x01, 0x00]);
}

#[test]
fn leb128_known_values() {
    assert_eq!(read_leb128(&[0x00]), Ok((0, 1)));
    assert_eq!(read_leb128(&[0x7f]), Ok((127, 1)));
    assert_eq!(read_leb128(&[0x80, 0x01]), Ok((128, 2)));
    assert_eq!(read_leb128(&[0xb9, 0x64]), Ok((12857, 2)));
    assert_eq!(read_leb128(&[0xe5, 0x8e, 0x26]), Ok((624485, 3)));
}

#[test]
fn leb128_reads_back() {
    for value in [
        0,
        1,
        127,
        128,
        255,
        256,
        16383,
        16384,
        u32::MAX as u64,
        (1 << 56) - 1,
        1 << 56,
        (1 << 63) - 1,
        1 << 63,
        u64::MAX - 1,
        u64::MAX,
    ] {
        let mut bytes = leb(value);
        let len = bytes.len();
        assert_eq!(read_leb128(&bytes), Ok((value, len)));
        bytes.push(0x80);
        assert_eq!(read_leb128(&bytes), Ok((value, len)));
        for cut in 0..len {
            assert_eq!(read_leb128(&bytes[..cut]), Err(DecodeError::TruncatedVarint));
        }
    }
}

#[test]
fn leb128_stops_at_the_first_end() {
    assert_eq!(read_leb128(&[0x05, 0x06]), Ok((5, 1)));
    assert_eq!(read_leb128(&[0x80, 0x01, 0x80, 0x01]), Ok((128, 2)));
}

#[test]
fn leb128_truncated() {
    assert_eq!(read_leb128(&[]), Err(DecodeError::TruncatedVarint));
    assert_eq!(read_leb128(&[0x80]), Err(DecodeError::TruncatedVarint));
    assert_eq!(read_leb128(&[0x8f, 0x8f]), Err(DecodeError::TruncatedVarint));
    assert_eq!(read_leb128(&[0xff; 40]), Err(DecodeError::TruncatedVarint));
}

#[test]
fn leb128_accepts_padding() {
    assert_eq!(read_leb128(&[0x80, 0x00]), Ok((0, 2)));
    assert_eq!(read_leb128(&[0x81, 0x80, 0x00]), Ok((1, 3)));
    assert_eq!(read_leb128(&[0xb9, 0xe4, 0x80, 0x80, 0x00]), Ok((12857, 5)));
    // longer than any 64-bit value needs
    let mut padded = vec![0xff];
    padded.extend_from_slice(&[0x80; 20]);
    padded.push(0x00);
    assert_eq!(read_leb128(&padded), Ok((127, 22)));
    // what comes back is written short
    assert_eq!(leb(127), vec![0x7f]);
}

#[test]
fn leb128_drops_bits_beyond_the_64th() {
    // the tenth group holds seven bits, of which one fits
    let mut bytes = vec![0xff; 9];
    bytes.push(0x7f);
    assert_eq!(read_leb128(&bytes), Ok((u64::MAX, 10)));
    let mut bytes = vec![0x80; 9];
    bytes.push(0x02);
    assert_eq!(read_leb128(&bytes), Ok((0, 10)));
    let mut bytes = vec![0x80; 9];
    bytes.push(0x03);
    assert_eq!(read_leb128(&bytes), Ok((1 << 63, 10)));
    // an eleventh group adds nothing
    let mut bytes = vec![0x81];
    bytes.extend_from_slice(&[0x80; 9]);
    bytes.push(0x7f);
    assert_eq!(read_leb128(&bytes), Ok((1, 11)));
}
