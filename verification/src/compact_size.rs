//! The compact unsigned integer that prefixes the variable parts of a marker
//! payload: values below `0xfd` stand in one byte, larger ones follow a tag
//! byte as 2, 4 or 8 little-endian bytes, always in the shortest form.

use crate::error::DecodeError;
use vstd::arithmetic::power2::*;
use vstd::prelude::*;

verus! {

/// The number that `bytes` spell in base 256, least significant byte first.
pub open spec fn le_value(bytes: Seq<u8>) -> nat
    decreases bytes.len(),
{
    if bytes.len() == 0 {
        0
    } else {
        bytes[0] as nat + 256 * le_value(bytes.skip(1))
    }
}

/// The `width` lowest base-256 digits of `n`, least significant first.
pub open spec fn le_bytes(n: nat, width: nat) -> Seq<u8>
    decreases width,
{
    if width == 0 {
        Seq::empty()
    } else {
        seq![(n % 256) as u8] + le_bytes(n / 256, (width - 1) as nat)
    }
}

/// How many bytes follow a first byte: none where the byte is the value itself.
pub open spec fn tail_width(first: u8) -> int {
    if first < 0xfd {
        0
    } else if first == 0xfd {
        2
    } else if first == 0xfe {
        4
    } else {
        8
    }
}

/// The least value that may be written with a tail of `width` bytes.
pub open spec fn least_for_width(width: int) -> nat {
    if width == 2 {
        0xfd
    } else if width == 4 {
        0x1_0000
    } else if width == 8 {
        0x1_0000_0000
    } else {
        0
    }
}

/// The encoding of `n`.
pub open spec fn compact_size_bytes(n: u64) -> Seq<u8> {
    if n < 0xfd {
        seq![n as u8]
    } else if n <= 0xffff {
        seq![0xfdu8] + le_bytes(n as nat, 2)
    } else if n <= 0xffff_ffff {
        seq![0xfeu8] + le_bytes(n as nat, 4)
    } else {
        seq![0xffu8] + le_bytes(n as nat, 8)
    }
}

/// What reading one compact integer from the front of `s` gives: the value and
/// the number of bytes it took, or the reason there is none.
pub open spec fn parse_compact_size(s: Seq<u8>) -> Result<(u64, int), DecodeError> {
    if s.len() == 0 {
        Err(DecodeError::TruncatedLength)
    } else {
        let width = tail_width(s[0]);
        if width == 0 {
            Ok((s[0] as u64, 1))
        } else if s.len() < 1 + width {
            Err(DecodeError::TruncatedLength)
        } else {
            let v = le_value(s.subrange(1, 1 + width));
            if v < least_for_width(width) {
                Err(DecodeError::MalformedLength)
            } else {
                Ok((v as u64, 1 + width))
            }
        }
    }
}

/// `width` digits are `width` bytes.
pub proof fn lemma_le_bytes_len(n: nat, width: nat)
    ensures
        le_bytes(n, width).len() == width,
    decreases width,
{
    if width > 0 {
        lemma_le_bytes_len(n / 256, (width - 1) as nat);
    }
}

/// A run of bytes spells a number below 256 to the power of its length.
pub proof fn lemma_le_value_bound(bytes: Seq<u8>)
    ensures
        le_value(bytes) < pow2(8 * bytes.len()),
    decreases bytes.len(),
{
    lemma2_to64();
    if bytes.len() > 0 {
        let rest = bytes.skip(1);
        lemma_le_value_bound(rest);
        lemma_pow2_adds(8, 8 * rest.len());
    }
}

/// Splitting a number into digits and spelling them out again loses what does
/// not fit in `width` digits, and nothing else.
pub proof fn lemma_le_value_of_bytes(n: nat, width: nat)
    requires
        n < pow2(8 * width),
    ensures
        le_value(le_bytes(n, width)) == n,
    decreases width,
{
    lemma2_to64();
    if width > 0 {
        let rest = le_bytes(n / 256, (width - 1) as nat);
        let all = le_bytes(n, width);
        lemma_pow2_adds(8, 8 * (width - 1) as nat);
        lemma_le_value_of_bytes(n / 256, (width - 1) as nat);
        assert(all.skip(1) =~= rest);
    }
}

/// Spelling out the digits of the number that a run of bytes stands for gives
/// the run back.
pub proof fn lemma_le_bytes_of_value(bytes: Seq<u8>)
    ensures
        le_bytes(le_value(bytes), bytes.len()) == bytes,
    decreases bytes.len(),
{
    if bytes.len() > 0 {
        lemma_le_bytes_of_value(bytes.skip(1));
    }
}

/// Reading an encoding gives its value back and stops at its end, whatever
/// bytes follow.
pub proof fn lemma_compact_size_round_trip(n: u64, rest: Seq<u8>)
    ensures
        parse_compact_size(compact_size_bytes(n) + rest) == Ok::<(u64, int), DecodeError>(
            (n, compact_size_bytes(n).len() as int),
        ),
{
    lemma2_to64();
    let s = compact_size_bytes(n) + rest;
    if n >= 0xfd {
        let width: nat = if n <= 0xffff {
            2
        } else if n <= 0xffff_ffff {
            4
        } else {
            8
        };
        let tail = le_bytes(n as nat, width);
        lemma_le_bytes_len(n as nat, width);
        assert(s.subrange(1, 1 + width as int) =~= tail);
        lemma_le_value_of_bytes(n as nat, width);
    }
}

/// Whatever is read was written in the one form that the encoding allows.
pub proof fn lemma_compact_size_canonical(s: Seq<u8>)
    ensures
        parse_compact_size(s) matches Ok((v, n)) ==> 0 < n <= s.len() && s.take(n)
            == compact_size_bytes(v),
{
    lemma2_to64();
    if let Ok((v, n)) = parse_compact_size(s) {
        let width = tail_width(s[0]);
        if width > 0 {
            let tail = s.subrange(1, 1 + width);
            lemma_le_value_bound(tail);
            lemma_le_bytes_of_value(tail);
        }
    }
}

/// What is read depends on the bytes read and on no others.
pub proof fn lemma_compact_size_prefix(s: Seq<u8>, t: Seq<u8>)
    requires
        parse_compact_size(s) matches Ok((v, n)) && n <= t.len() && t.take(n) == s.take(n),
    ensures
        parse_compact_size(t) == parse_compact_size(s),
{
    let n = parse_compact_size(s)->Ok_0.1;
    let width = tail_width(s[0]);
    assert(s[0] == s.take(n)[0]);
    if width > 0 {
        assert(t.subrange(1, 1 + width) =~= t.take(n).subrange(1, 1 + width));
        assert(s.subrange(1, 1 + width) =~= s.take(n).subrange(1, 1 + width));
    }
}

/// Cut anywhere inside an encoding, the data no longer holds a value.
pub proof fn lemma_compact_size_truncated(s: Seq<u8>, m: int)
    requires
        parse_compact_size(s) matches Ok((v, n)) && 0 <= m < n,
    ensures
        parse_compact_size(s.take(m)) == Err::<(u64, int), DecodeError>(
            DecodeError::TruncatedLength,
        ),
{
}

/// Reads `width` little-endian bytes that start at `start`.
fn read_le(data: &[u8], start: usize, width: usize) -> (v: u64)
    requires
        width <= 8,
        start + width <= data.len(),
    ensures
        v == le_value(data@.subrange(start as int, start + width)),
{
    let mut v: u64 = 0;
    let mut j: usize = width;
    proof {
        lemma2_to64();
    }
    // from the most significant byte down
    while j > 0
        invariant
            j <= width <= 8,
            start + width <= data.len(),
            v == le_value(data@.subrange(start + j, start + width)),
            v < pow2((8 * (width - j)) as nat),
        decreases j,
    {
        j -= 1;
        proof {
            let older = data@.subrange(start + j + 1, start + width);
            let newer = data@.subrange(start + j, start + width);
            assert(newer.skip(1) =~= older);
            lemma2_to64();
            lemma_pow2_adds(8, (8 * (width - j - 1)) as nat);
            if width - j < 8 {
                lemma_pow2_strictly_increases((8 * (width - j)) as nat, 64);
            }
        }
        v = v * 256 + data[start + j] as u64;
    }
    v
}

/// Appends the `width` lowest little-endian bytes of `n`.
fn write_le(n: u64, width: usize, out: &mut Vec<u8>)
    ensures
        final(out)@ == old(out)@ + le_bytes(n as nat, width as nat),
{
    let ghost before = out@;
    let mut rest: u64 = n;
    let mut i: usize = 0;
    assert(out@ + le_bytes(rest as nat, (width - i) as nat) =~= before + le_bytes(
        n as nat,
        width as nat,
    ));
    while i < width
        invariant
            i <= width,
            out@ + le_bytes(rest as nat, (width - i) as nat) == before + le_bytes(
                n as nat,
                width as nat,
            ),
        decreases width - i,
    {
        out.push((rest % 256) as u8);
        rest = rest / 256;
        i += 1;
    }
}

/// Appends the encoding of `n` to `out`.
pub fn write_compact_size(n: u64, out: &mut Vec<u8>)
    ensures
        final(out)@ == old(out)@ + compact_size_bytes(n),
{
    if n < 0xfd {
        out.push(n as u8);
    } else {
        let (tag, width): (u8, usize) = if n <= 0xffff {
            (0xfd, 2)
        } else if n <= 0xffff_ffff {
            (0xfe, 4)
        } else {
            (0xff, 8)
        };
        out.push(tag);
        write_le(n, width, out);
    }
}

/// Reads one compact integer from the front of `data`. On success the second
/// component is the number of bytes read; what follows them is not looked at.
pub fn read_compact_size(data: &[u8]) -> (r: Result<(u64, usize), DecodeError>)
    ensures
        match parse_compact_size(data@) {
            Ok((v, n)) => r == Ok::<(u64, usize), DecodeError>((v, n as usize)) && n <= data.len(),
            Err(e) => r == Err::<(u64, usize), DecodeError>(e),
        },
{
    if data.len() == 0 {
        return Err(DecodeError::TruncatedLength);
    }
    let first: u8 = data[0];
    if first < 0xfd {
        return Ok((first as u64, 1));
    }
    let (width, least): (usize, u64) = if first == 0xfd {
        (2, 0xfd)
    } else if first == 0xfe {
        (4, 0x1_0000)
    } else {
        (8, 0x1_0000_0000)
    };
    if data.len() - 1 < width {
        return Err(DecodeError::TruncatedLength);
    }
    let v: u64 = read_le(data, 1, width);
    if v < least {
        Err(DecodeError::MalformedLength)
    } else {
        Ok((v, 1 + width))
    }
}

} // verus!
