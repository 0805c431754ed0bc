//! Asset quantities on the wire: unsigned LEB128. A value is cut into groups of
//! seven bits, lowest group first, one group per byte; the top bit of a byte
//! says that another byte follows.
//!
//! Writing always gives the shortest form. Reading accepts any form: groups of
//! zeros at the top are allowed, and bits beyond the 64th are dropped.

use crate::error::DecodeError;
use vstd::arithmetic::power2::*;
use vstd::prelude::*;

verus! {

/// The number that the seven low bits of each byte spell in base 128, lowest
/// group first.
pub open spec fn leb128_value(bytes: Seq<u8>) -> nat
    decreases bytes.len(),
{
    if bytes.len() == 0 {
        0
    } else {
        (bytes[0] % 128) as nat + 128 * leb128_value(bytes.skip(1))
    }
}

/// The first `n` bytes of `s` are one whole value: `n - 1` bytes that announce
/// a successor, then one that does not.
pub open spec fn leb128_ends_at(s: Seq<u8>, n: int) -> bool {
    &&& 1 <= n <= s.len()
    &&& s[n - 1] < 0x80
    &&& forall|i: int| 0 <= i < n - 1 ==> s[i] >= 0x80
}

/// Some byte of `s` closes the value that starts at its front.
pub open spec fn leb128_complete(s: Seq<u8>) -> bool {
    exists|n: int| leb128_ends_at(s, n)
}

/// The length of the value at the front of `s`, where there is one.
pub open spec fn leb128_len(s: Seq<u8>) -> int {
    choose|n: int| leb128_ends_at(s, n)
}

/// What reading one quantity from the front of `s` gives: the value, reduced to
/// 64 bits, and the number of bytes it took.
pub open spec fn parse_leb128(s: Seq<u8>) -> Result<(u64, int), DecodeError> {
    if leb128_complete(s) {
        let n = leb128_len(s);
        Ok(((leb128_value(s.take(n)) % 0x1_0000_0000_0000_0000) as u64, n))
    } else {
        Err(DecodeError::TruncatedVarint)
    }
}

/// The shortest encoding of `v`.
pub open spec fn leb128_bytes(v: u64) -> Seq<u8>
    decreases v,
{
    if v < 0x80 {
        seq![v as u8]
    } else {
        seq![(v % 128 + 128) as u8] + leb128_bytes(v / 128)
    }
}

/// A value at the front of some data ends in one place only.
pub proof fn lemma_leb128_end_unique(s: Seq<u8>, n: int, m: int)
    requires
        leb128_ends_at(s, n),
        leb128_ends_at(s, m),
    ensures
        n == m,
{
}

/// Where the value at the front of `s` ends after `n` bytes, reading gives the
/// number that those bytes spell.
pub proof fn lemma_leb128_parse_at(s: Seq<u8>, n: int)
    requires
        leb128_ends_at(s, n),
    ensures
        parse_leb128(s) == Ok::<(u64, int), DecodeError>(
            ((leb128_value(s.take(n)) % 0x1_0000_0000_0000_0000) as u64, n),
        ),
{
    lemma_leb128_end_unique(s, n, leb128_len(s));
}

/// A value below 128 to the power of `groups` is written in `groups` bytes or
/// fewer.
pub proof fn lemma_leb128_bytes_len(v: u64, groups: nat)
    requires
        groups >= 1,
        v < pow2(7 * groups),
    ensures
        leb128_bytes(v).len() <= groups,
    decreases groups,
{
    lemma2_to64();
    if v >= 0x80 {
        lemma_pow2_adds(7, (7 * (groups - 1)) as nat);
        lemma_leb128_bytes_len(v / 128, (groups - 1) as nat);
    }
}

/// The shortest encoding is one whole value and spells the number it was made
/// from; it has no group of zeros at its top, and ten bytes at most.
pub proof fn lemma_leb128_bytes(v: u64)
    ensures
        leb128_ends_at(leb128_bytes(v), leb128_bytes(v).len() as int),
        leb128_value(leb128_bytes(v)) == v,
        leb128_bytes(v).len() == 1 || leb128_bytes(v).last() != 0,
        v < 0x80 <==> leb128_bytes(v).len() == 1,
        leb128_bytes(v).len() <= 10,
    decreases v,
{
    let enc = leb128_bytes(v);
    assert(enc.len() <= 10) by {
        lemma2_to64();
        lemma_pow2_strictly_increases(64, 70);
        lemma_leb128_bytes_len(v, 10);
    }
    if v >= 0x80 {
        let rest = leb128_bytes(v / 128);
        lemma_leb128_bytes(v / 128);
        assert(enc.skip(1) =~= rest);
    } else {
        assert(leb128_value(enc.skip(1)) == 0);
    }
}

/// A run of groups spells a number below 128 to the power of its length.
pub proof fn lemma_leb128_value_bound(bytes: Seq<u8>)
    ensures
        leb128_value(bytes) < pow2(7 * bytes.len()),
    decreases bytes.len(),
{
    lemma2_to64();
    if bytes.len() > 0 {
        let rest = bytes.skip(1);
        lemma_leb128_value_bound(rest);
        lemma_pow2_adds(7, 7 * rest.len());
    }
}

/// Reading is lenient and writing is strict: what was read from some bytes is
/// written in as many bytes or fewer.
pub proof fn lemma_leb128_written_no_longer(s: Seq<u8>)
    ensures
        parse_leb128(s) matches Ok((v, n)) ==> leb128_bytes(v).len() <= n,
{
    if let Ok((v, n)) = parse_leb128(s) {
        lemma_leb128_value_bound(s.take(n));
        lemma_leb128_bytes_len(v, n as nat);
    }
}

/// Reading a shortest encoding gives its value back and stops at its end,
/// whatever bytes follow.
pub proof fn lemma_leb128_round_trip(v: u64, rest: Seq<u8>)
    ensures
        parse_leb128(leb128_bytes(v) + rest) == Ok::<(u64, int), DecodeError>(
            (v, leb128_bytes(v).len() as int),
        ),
{
    let enc = leb128_bytes(v);
    let s = enc + rest;
    let n = enc.len() as int;
    lemma_leb128_bytes(v);
    assert(leb128_ends_at(s, n));
    assert(s.take(n) =~= enc);
    lemma_leb128_parse_at(s, n);
}

/// What is read depends on the bytes read and on no others.
pub proof fn lemma_leb128_prefix(s: Seq<u8>, t: Seq<u8>)
    requires
        parse_leb128(s) matches Ok((v, n)) && n <= t.len() && t.take(n) == s.take(n),
    ensures
        parse_leb128(t) == parse_leb128(s),
{
    let n = leb128_len(s);
    assert(leb128_ends_at(t, n)) by {
        assert(s[n - 1] == s.take(n)[n - 1]);
        assert forall|i: int| 0 <= i < n - 1 implies t[i] >= 0x80 by {
            assert(s[i] == s.take(n)[i]);
        }
    }
    lemma_leb128_parse_at(t, n);
}

/// Cut anywhere inside a value, the data no longer holds one.
pub proof fn lemma_leb128_truncated(s: Seq<u8>, m: int)
    requires
        parse_leb128(s) matches Ok((v, n)) && 0 <= m < n,
    ensures
        parse_leb128(s.take(m)) == Err::<(u64, int), DecodeError>(DecodeError::TruncatedVarint),
{
    assert(!leb128_complete(s.take(m)));
}

/// Appends the shortest encoding of `value` to `out`.
pub fn write_leb128(value: u64, out: &mut Vec<u8>)
    ensures
        final(out)@ == old(out)@ + leb128_bytes(value),
{
    let ghost before = out@;
    let mut rest: u64 = value;
    while rest >= 0x80
        invariant
            out@ + leb128_bytes(rest) == before + leb128_bytes(value),
        decreases rest,
    {
        out.push((rest % 128 + 128) as u8);
        rest = rest / 128;
    }
    out.push(rest as u8);
}

/// Reads one quantity from the front of `data`. On success the second
/// component is the number of bytes read; what follows them is not looked at.
pub fn read_leb128(data: &[u8]) -> (r: Result<(u64, usize), DecodeError>)
    ensures
        match parse_leb128(data@) {
            Ok((v, n)) => r == Ok::<(u64, usize), DecodeError>((v, n as usize)) && n <= data.len(),
            Err(e) => r == Err::<(u64, usize), DecodeError>(e),
        },
{
    let mut last: usize = 0;
    while last < data.len() && data[last] >= 0x80
        invariant
            last <= data.len(),
            forall|i: int| 0 <= i < last ==> data@[i] >= 0x80,
        decreases data.len() - last,
    {
        last += 1;
    }
    if last == data.len() {
        assert(!leb128_complete(data@));
        return Err(DecodeError::TruncatedVarint);
    }
    let n: usize = last + 1;
    proof {
        lemma_leb128_parse_at(data@, n as int);
    }
    // The groups are folded from the top one down; each step moves what has
    // been gathered seven bits up and lets go of what leaves the 64 bits.
    let mut value: u64 = 0;
    let mut j: usize = n;
    while j > 0
        invariant
            j <= n <= data.len(),
            value == leb128_value(data@.subrange(j as int, n as int)) % 0x1_0000_0000_0000_0000,
        decreases j,
    {
        j -= 1;
        let group: u64 = (data[j] % 128) as u64;
        proof {
            let higher = data@.subrange(j + 1, n as int);
            let all = data@.subrange(j as int, n as int);
            assert(all.skip(1) =~= higher);
            let x = leb128_value(higher);
            assert((group + 128 * x) % 0x1_0000_0000_0000_0000 == ((x % 0x1_0000_0000_0000_0000)
                % 0x200_0000_0000_0000) * 128 + group);
        }
        value = (value % 0x200_0000_0000_0000) * 128 + group;
    }
    Ok((value, n))
}

} // verus!
