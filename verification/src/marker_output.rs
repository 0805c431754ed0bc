//! The marker payload: the data that an output carries to say how many units
//! of an asset go to each of the transaction's outputs.
//!
//! On the wire a payload is the marker and the version, two bytes each and
//! most significant byte first; the number of quantities as a compact integer;
//! each quantity as LEB128; and the metadata behind a compact integer that
//! gives its length.

use crate::compact_size::{
    compact_size_bytes, lemma_compact_size_canonical, lemma_compact_size_prefix,
    lemma_compact_size_round_trip, lemma_compact_size_truncated, parse_compact_size,
    read_compact_size, write_compact_size,
};
use crate::error::DecodeError;
use crate::leb128::{
    leb128_bytes, lemma_leb128_prefix, lemma_leb128_round_trip, lemma_leb128_truncated,
    parse_leb128, read_leb128, write_leb128,
};
use crate::script::{is_op_return, pushed_bytes, script_is_op_return, script_pushed_bytes};
use vstd::prelude::*;
use vstd::slice::*;
use vstd::utf8::*;

verus! {

/// The two bytes that open every marker payload.
pub const MARKER: u16 = 0x4f41;

/// The one version of the payload format that is read and written.
pub const VERSION: u16 = 0x0100;

/// Free-form bytes that travel with the quantities. By convention they are
/// UTF-8 text; nothing here depends on that.
#[derive(PartialEq, Eq, Debug, Clone)]
pub struct Metadata(pub Vec<u8>);

/// The asset quantities of a transaction, one for each output in the order of
/// the outputs, and the metadata.
#[derive(PartialEq, Eq, Debug, Clone)]
pub struct Payload {
    /// The units that each output gets, in the order of the outputs.
    pub quantities: Vec<u64>,
    /// What the issuer or sender says about the transfer.
    pub metadata: Metadata,
}

/// What a payload holds.
#[verifier::ext_equal]
pub struct PayloadView {
    /// The units that each output gets, in the order of the outputs.
    pub quantities: Seq<u64>,
    /// The bytes of the metadata.
    pub metadata: Seq<u8>,
}

impl View for Metadata {
    type V = Seq<u8>;

    open spec fn view(&self) -> Seq<u8> {
        self.0@
    }
}

impl View for Payload {
    type V = PayloadView;

    open spec fn view(&self) -> PayloadView {
        PayloadView { quantities: self.quantities@, metadata: self.metadata@ }
    }
}

/// The two bytes of `x`, most significant first.
pub open spec fn be16_bytes(x: u16) -> Seq<u8> {
    seq![(x / 256) as u8, (x % 256) as u8]
}

/// The number that the two bytes at `at` spell, most significant first.
pub open spec fn be16_at(s: Seq<u8>, at: int) -> int {
    s[at] * 256 + s[at + 1]
}

/// The encodings of the quantities, one after the other.
pub open spec fn quantities_bytes(quantities: Seq<u64>) -> Seq<u8>
    decreases quantities.len(),
{
    if quantities.len() == 0 {
        Seq::empty()
    } else {
        quantities_bytes(quantities.drop_last()) + leb128_bytes(quantities.last())
    }
}

/// The metadata behind its length.
pub open spec fn metadata_bytes(metadata: Seq<u8>) -> Seq<u8> {
    compact_size_bytes(metadata.len() as u64) + metadata
}

/// The wire form of a payload.
pub open spec fn payload_bytes(payload: PayloadView) -> Seq<u8> {
    be16_bytes(MARKER) + be16_bytes(VERSION) + compact_size_bytes(payload.quantities.len() as u64)
        + quantities_bytes(payload.quantities) + metadata_bytes(payload.metadata)
}

/// What reading `count` quantities from the front of `s` gives: the quantities
/// and the number of bytes they took, or the error of the first that is not
/// whole.
pub open spec fn parse_quantities(s: Seq<u8>, count: nat) -> Result<(Seq<u64>, int), DecodeError>
    decreases count,
{
    if count == 0 {
        Ok((Seq::empty(), 0))
    } else {
        match parse_quantities(s, (count - 1) as nat) {
            Err(e) => Err(e),
            Ok((earlier, n)) => match parse_leb128(s.skip(n)) {
                Err(e) => Err(e),
                Ok((q, k)) => Ok((earlier.push(q), n + k)),
            },
        }
    }
}

/// What reading the metadata from the front of `s` gives.
pub open spec fn parse_metadata(s: Seq<u8>) -> Result<(Seq<u8>, int), DecodeError> {
    match parse_compact_size(s) {
        Err(e) => Err(e),
        Ok((len, n)) => if s.len() - n < len {
            Err(DecodeError::TruncatedMetadata)
        } else {
            Ok((s.subrange(n, n + len), n + len))
        },
    }
}

/// What reading a payload from the front of `s` gives: the payload and the
/// number of bytes it took, or the error of the first field that cannot be
/// read. Bytes behind the metadata are not part of the payload and do no harm.
pub open spec fn parse_payload(s: Seq<u8>) -> Result<(PayloadView, int), DecodeError> {
    if s.len() < 2 {
        Err(DecodeError::TruncatedHeader)
    } else if be16_at(s, 0) != MARKER {
        Err(DecodeError::InvalidMarker)
    } else if s.len() < 4 {
        Err(DecodeError::TruncatedHeader)
    } else if be16_at(s, 2) != VERSION {
        Err(DecodeError::InvalidVersion)
    } else {
        match parse_compact_size(s.skip(4)) {
            Err(e) => Err(e),
            Ok((count, a)) => match parse_quantities(s.skip(4 + a), count as nat) {
                Err(e) => Err(e),
                Ok((quantities, b)) => match parse_metadata(s.skip(4 + a + b)) {
                    Err(e) => Err(e),
                    Ok((metadata, c)) => Ok((PayloadView { quantities, metadata }, 4 + a + b + c)),
                },
            },
        }
    }
}

/// Quantities are read from whole bytes of the data: what `count` of them took
/// lies within it.
pub proof fn lemma_parse_quantities_within(s: Seq<u8>, count: nat)
    ensures
        parse_quantities(s, count) matches Ok((quantities, n)) ==> 0 <= n <= s.len()
            && quantities.len() == count,
    decreases count,
{
    if count > 0 {
        lemma_parse_quantities_within(s, (count - 1) as nat);
    }
}

/// Once a quantity cannot be read, asking for more quantities gives the same
/// error.
pub proof fn lemma_parse_quantities_error_stays(s: Seq<u8>, count: nat, more: nat)
    requires
        parse_quantities(s, count) is Err,
        count <= more,
    ensures
        parse_quantities(s, more) == parse_quantities(s, count),
    decreases more,
{
    if count < more {
        lemma_parse_quantities_error_stays(s, count, (more - 1) as nat);
    }
}

/// Reading the encodings of some quantities gives the quantities back and
/// stops at their end, whatever bytes follow.
pub proof fn lemma_quantities_round_trip(quantities: Seq<u64>, rest: Seq<u8>)
    ensures
        parse_quantities(quantities_bytes(quantities) + rest, quantities.len()) == Ok::<
            (Seq<u64>, int),
            DecodeError,
        >((quantities, quantities_bytes(quantities).len() as int)),
    decreases quantities.len(),
{
    let s = quantities_bytes(quantities) + rest;
    if quantities.len() == 0 {
        assert(quantities =~= Seq::<u64>::empty());
    } else {
        let earlier = quantities.drop_last();
        let last = quantities.last();
        let head = quantities_bytes(earlier);
        assert(s =~= head + (leb128_bytes(last) + rest));
        lemma_quantities_round_trip(earlier, leb128_bytes(last) + rest);
        assert(s.skip(head.len() as int) =~= leb128_bytes(last) + rest);
        lemma_leb128_round_trip(last, rest);
        assert(earlier.push(last) =~= quantities);
    }
}

/// Reading the wire form of some metadata gives the metadata back and stops at
/// its end, whatever bytes follow.
pub proof fn lemma_metadata_round_trip(metadata: Seq<u8>, rest: Seq<u8>)
    requires
        metadata.len() <= u64::MAX,
    ensures
        parse_metadata(metadata_bytes(metadata) + rest) == Ok::<(Seq<u8>, int), DecodeError>(
            (metadata, metadata_bytes(metadata).len() as int),
        ),
{
    let prefix = compact_size_bytes(metadata.len() as u64);
    let s = metadata_bytes(metadata) + rest;
    assert(s =~= prefix + (metadata + rest));
    lemma_compact_size_round_trip(metadata.len() as u64, metadata + rest);
    assert(s.subrange(prefix.len() as int, (prefix.len() + metadata.len()) as int) =~= metadata);
}

/// Reading the wire form of a payload gives the payload back and stops at its
/// end, whatever bytes follow.
pub proof fn lemma_payload_round_trip(payload: PayloadView, rest: Seq<u8>)
    requires
        payload.quantities.len() <= u64::MAX,
        payload.metadata.len() <= u64::MAX,
    ensures
        parse_payload(payload_bytes(payload) + rest) == Ok::<(PayloadView, int), DecodeError>(
            (payload, payload_bytes(payload).len() as int),
        ),
{
    let count = compact_size_bytes(payload.quantities.len() as u64);
    let quantities = quantities_bytes(payload.quantities);
    let metadata = metadata_bytes(payload.metadata);
    let s = payload_bytes(payload) + rest;
    assert(s.skip(4) =~= count + (quantities + (metadata + rest)));
    lemma_compact_size_round_trip(payload.quantities.len() as u64, quantities + (metadata + rest));
    assert(s.skip((4 + count.len()) as int) =~= quantities + (metadata + rest));
    lemma_quantities_round_trip(payload.quantities, metadata + rest);
    assert(s.skip((4 + count.len() + quantities.len()) as int) =~= metadata + rest);
    lemma_metadata_round_trip(payload.metadata, rest);
}

/// The quantities that are read depend on the bytes read and on no others.
pub proof fn lemma_parse_quantities_prefix(s: Seq<u8>, t: Seq<u8>, count: nat)
    requires
        parse_quantities(s, count) matches Ok((quantities, n)) && n <= t.len() && t.take(n)
            == s.take(n),
    ensures
        parse_quantities(t, count) == parse_quantities(s, count),
    decreases count,
{
    if count > 0 {
        let n = parse_quantities(s, count)->Ok_0.1;
        let before = parse_quantities(s, (count - 1) as nat)->Ok_0.1;
        let k = parse_leb128(s.skip(before))->Ok_0.1;
        lemma_parse_quantities_within(s, (count - 1) as nat);
        lemma_parse_quantities_within(s, count);
        assert(t.take(before) =~= t.take(n).take(before));
        assert(s.take(before) =~= s.take(n).take(before));
        lemma_parse_quantities_prefix(s, t, (count - 1) as nat);
        assert(t.skip(before).take(k) =~= t.take(n).skip(before));
        assert(s.skip(before).take(k) =~= s.take(n).skip(before));
        lemma_leb128_prefix(s.skip(before), t.skip(before));
    }
}

/// Cut anywhere inside the quantities, the data no longer holds them all.
pub proof fn lemma_parse_quantities_truncated(s: Seq<u8>, count: nat, m: int)
    requires
        parse_quantities(s, count) matches Ok((quantities, n)) && 0 <= m < n,
    ensures
        parse_quantities(s.take(m), count) == Err::<(Seq<u64>, int), DecodeError>(
            DecodeError::TruncatedVarint,
        ),
    decreases count,
{
    if count > 0 {
        let t = s.take(m);
        let before = parse_quantities(s, (count - 1) as nat)->Ok_0.1;
        lemma_parse_quantities_within(s, (count - 1) as nat);
        lemma_parse_quantities_within(s, count);
        if m < before {
            lemma_parse_quantities_truncated(s, (count - 1) as nat, m);
        } else {
            assert(t.take(before) =~= s.take(before));
            lemma_parse_quantities_prefix(s, t, (count - 1) as nat);
            assert(t.skip(before) =~= s.skip(before).take(m - before));
            lemma_leb128_truncated(s.skip(before), m - before);
        }
    }
}

/// The metadata that is read depends on the bytes read and on no others.
pub proof fn lemma_parse_metadata_prefix(s: Seq<u8>, t: Seq<u8>)
    requires
        parse_metadata(s) matches Ok((metadata, n)) && n <= t.len() && t.take(n) == s.take(n),
    ensures
        parse_metadata(t) == parse_metadata(s),
{
    let n = parse_metadata(s)->Ok_0.1;
    let a = parse_compact_size(s)->Ok_0.1;
    lemma_compact_size_canonical(s);
    assert(t.take(a) =~= t.take(n).take(a));
    assert(s.take(a) =~= s.take(n).take(a));
    lemma_compact_size_prefix(s, t);
    assert(t.subrange(a, n) =~= t.take(n).subrange(a, n));
    assert(s.subrange(a, n) =~= s.take(n).subrange(a, n));
}

/// Cut anywhere inside the metadata or its length, the data no longer holds
/// the metadata.
pub proof fn lemma_parse_metadata_truncated(s: Seq<u8>, m: int)
    requires
        parse_metadata(s) matches Ok((metadata, n)) && 0 <= m < n,
    ensures
        parse_metadata(s.take(m)) matches Err(e) && (e == DecodeError::TruncatedLength || e
            == DecodeError::TruncatedMetadata),
{
    let t = s.take(m);
    let a = parse_compact_size(s)->Ok_0.1;
    lemma_compact_size_canonical(s);
    if m < a {
        lemma_compact_size_truncated(s, m);
    } else {
        assert(t.take(a) =~= s.take(a));
        lemma_compact_size_prefix(s, t);
    }
}

/// The payload that is read depends on the bytes read and on no others: bytes
/// behind it may be added, changed or taken away.
pub proof fn lemma_payload_prefix(s: Seq<u8>, t: Seq<u8>)
    requires
        parse_payload(s) matches Ok((payload, n)) && n <= t.len() && t.take(n) == s.take(n),
    ensures
        parse_payload(t) == parse_payload(s),
{
    let n = parse_payload(s)->Ok_0.1;
    let a = parse_compact_size(s.skip(4))->Ok_0.1;
    let count = parse_compact_size(s.skip(4))->Ok_0.0;
    let b = parse_quantities(s.skip(4 + a), count as nat)->Ok_0.1;
    let c = parse_metadata(s.skip(4 + a + b))->Ok_0.1;
    lemma_compact_size_canonical(s.skip(4));
    lemma_parse_quantities_within(s.skip(4 + a), count as nat);
    assert forall|i: int| 0 <= i < n implies t[i] == s[i] by {
        assert(s[i] == s.take(n)[i]);
    }
    assert(t.skip(4).take(a) =~= s.skip(4).take(a));
    lemma_compact_size_prefix(s.skip(4), t.skip(4));
    assert(t.skip(4 + a).take(b) =~= s.skip(4 + a).take(b));
    lemma_parse_quantities_prefix(s.skip(4 + a), t.skip(4 + a), count as nat);
    assert(t.skip(4 + a + b).take(c) =~= s.skip(4 + a + b).take(c));
    lemma_parse_metadata_prefix(s.skip(4 + a + b), t.skip(4 + a + b));
}

/// Cut anywhere before its end, a payload is not read in part: the data is
/// refused, and the error says that it ended too soon.
pub proof fn lemma_payload_truncated(s: Seq<u8>, m: int)
    requires
        parse_payload(s) matches Ok((payload, n)) && 0 <= m < n,
    ensures
        parse_payload(s.take(m)) matches Err(e) && e.is_truncation(),
{
    let t = s.take(m);
    let a = parse_compact_size(s.skip(4))->Ok_0.1;
    let count = parse_compact_size(s.skip(4))->Ok_0.0;
    let b = parse_quantities(s.skip(4 + a), count as nat)->Ok_0.1;
    lemma_compact_size_canonical(s.skip(4));
    lemma_parse_quantities_within(s.skip(4 + a), count as nat);
    if m >= 4 {
        if m - 4 < a {
            lemma_compact_size_truncated(s.skip(4), m - 4);
        } else {
            assert(t.skip(4).take(a) =~= s.skip(4).take(a));
            lemma_compact_size_prefix(s.skip(4), t.skip(4));
            assert(t.skip(4 + a) =~= s.skip(4 + a).take(m - 4 - a));
            if m - 4 - a < b {
                lemma_parse_quantities_truncated(s.skip(4 + a), count as nat, m - 4 - a);
            } else {
                assert(t.skip(4 + a).take(b) =~= s.skip(4 + a).take(b));
                lemma_parse_quantities_prefix(s.skip(4 + a), t.skip(4 + a), count as nat);
                assert(t.skip(4 + a + b) =~= s.skip(4 + a + b).take(m - 4 - a - b));
                lemma_parse_metadata_truncated(s.skip(4 + a + b), m - 4 - a - b);
            }
        }
    }
}

/// The four header bytes are exact: where a payload is read from some data,
/// the same data with one bit of a header byte turned over is refused.
pub proof fn lemma_payload_header_bit(s: Seq<u8>, index: int, bit: u8)
    requires
        parse_payload(s) is Ok,
        0 <= index < 4,
        bit < 8,
    ensures
        parse_payload(s.update(index, s[index] ^ (1u8 << bit))) == Err::<
            (PayloadView, int),
            DecodeError,
        >(
            if index < 2 {
                DecodeError::InvalidMarker
            } else {
                DecodeError::InvalidVersion
            },
        ),
{
    let old_byte = s[index];
    let new_byte = old_byte ^ (1u8 << bit);
    assert(new_byte != old_byte) by (bit_vector)
        requires
            bit < 8,
            new_byte == old_byte ^ (1u8 << bit),
    ;
}

/// Calls `String::from_utf8`, which gives the text that the bytes encode where
/// they are valid UTF-8, and an error where they are not.
#[verifier::external_body]
fn string_from_utf8(bytes: Vec<u8>) -> (r: Option<String>)
    ensures
        r is Some == valid_utf8(bytes@),
        r matches Some(text) ==> text@ == decode_utf8(bytes@),
{
    match String::from_utf8(bytes) {
        Ok(text) => Some(text),
        Err(_) => None,
    }
}

impl Metadata {
    /// Appends the length of the metadata and its bytes to `out`.
    pub fn consensus_encode(&self, out: &mut Vec<u8>)
        ensures
            final(out)@ == old(out)@ + metadata_bytes(self@),
    {
        write_compact_size(self.0.len() as u64, out);
        out.extend_from_slice(self.0.as_slice());
    }

    /// Reads metadata from the front of `data`. On success the second component
    /// is the number of bytes read.
    pub fn consensus_decode(data: &[u8]) -> (r: Result<(Metadata, usize), DecodeError>)
        ensures
            match parse_metadata(data@) {
                Ok((m, n)) => r matches Ok((metadata, used)) && metadata@ == m && used == n && n
                    <= data.len(),
                Err(e) => r matches Err(f) && f == e,
            },
    {
        match read_compact_size(data) {
            Err(e) => Err(e),
            Ok((len, n)) => {
                if ((data.len() - n) as u64) < len {
                    Err(DecodeError::TruncatedMetadata)
                } else {
                    let end: usize = n + len as usize;
                    let bytes = slice_to_vec(slice_subrange(data, n, end));
                    Ok((Metadata(bytes), end))
                }
            },
        }
    }

    /// The metadata as text, where it is valid UTF-8.
    pub fn as_text(&self) -> (r: Option<String>)
        ensures
            r is Some == valid_utf8(self@),
            r matches Some(text) ==> text@ == decode_utf8(self@),
    {
        string_from_utf8(slice_to_vec(self.0.as_slice()))
    }

    /// The metadata as text. It has to be valid UTF-8; `as_text` tells.
    pub fn to_string(&self) -> (text: String)
        requires
            valid_utf8(self@),
        ensures
            text@ == decode_utf8(self@),
    {
        match self.as_text() {
            Some(text) => text,
            None => unreached(),
        }
    }
}

impl Payload {
    /// Appends the wire form of the payload to `out`.
    pub fn consensus_encode(&self, out: &mut Vec<u8>)
        ensures
            final(out)@ == old(out)@ + payload_bytes(self@),
    {
        let ghost before = out@;
        out.push((MARKER / 256) as u8);
        out.push((MARKER % 256) as u8);
        out.push((VERSION / 256) as u8);
        out.push((VERSION % 256) as u8);
        write_compact_size(self.quantities.len() as u64, out);
        let ghost head = out@;
        assert(head =~= before + be16_bytes(MARKER) + be16_bytes(VERSION) + compact_size_bytes(
            self@.quantities.len() as u64,
        ));
        let mut i: usize = 0;
        while i < self.quantities.len()
            invariant
                i <= self.quantities.len(),
                out@ == head + quantities_bytes(self.quantities@.take(i as int)),
            decreases self.quantities.len() - i,
        {
            write_leb128(self.quantities[i], out);
            assert(self.quantities@.take(i + 1).drop_last() =~= self.quantities@.take(i as int));
            i += 1;
        }
        assert(self.quantities@.take(i as int) =~= self.quantities@);
        self.metadata.consensus_encode(out);
    }

    /// Reads a payload from the front of `data`. On success the second
    /// component is the number of bytes read; `data` may hold more.
    #[verifier::loop_isolation(false)]
    pub fn consensus_decode(data: &[u8]) -> (r: Result<(Payload, usize), DecodeError>)
        ensures
            match parse_payload(data@) {
                Ok((p, n)) => r matches Ok((payload, used)) && payload@ == p && used == n && n
                    <= data.len(),
                Err(e) => r matches Err(f) && f == e,
            },
    {
        if data.len() < 2 {
            return Err(DecodeError::TruncatedHeader);
        }
        let marker: u16 = data[0] as u16 * 256 + data[1] as u16;
        if marker != MARKER {
            return Err(DecodeError::InvalidMarker);
        }
        if data.len() < 4 {
            return Err(DecodeError::TruncatedHeader);
        }
        let version: u16 = data[2] as u16 * 256 + data[3] as u16;
        if version != VERSION {
            return Err(DecodeError::InvalidVersion);
        }
        let (count, a): (u64, usize) = match read_compact_size(
            slice_subrange(data, 4, data.len()),
        ) {
            Err(e) => {
                return Err(e);
            },
            Ok(found) => found,
        };
        let start: usize = 4 + a;
        let ghost body = data@.skip(start as int);
        let mut quantities: Vec<u64> = Vec::new();
        let mut pos: usize = start;
        let mut i: u64 = 0;
        while i < count
            invariant
                i <= count,
                start <= pos <= data.len(),
                body == data@.skip(start as int),
                parse_quantities(body, i as nat) == Ok::<(Seq<u64>, int), DecodeError>(
                    (quantities@, pos - start),
                ),
            decreases count - i,
        {
            assert(data@.subrange(pos as int, data.len() as int) =~= body.skip(pos - start));
            match read_leb128(slice_subrange(data, pos, data.len())) {
                Err(e) => {
                    proof {
                        assert(parse_quantities(body, (i + 1) as nat) == Err::<
                            (Seq<u64>, int),
                            DecodeError,
                        >(e));
                        lemma_parse_quantities_error_stays(body, (i + 1) as nat, count as nat);
                    }
                    return Err(e);
                },
                Ok((q, k)) => {
                    quantities.push(q);
                    pos += k;
                },
            }
            i += 1;
        }
        match Metadata::consensus_decode(slice_subrange(data, pos, data.len())) {
            Err(e) => Err(e),
            Ok((metadata, c)) => Ok((Payload { quantities, metadata }, pos + c)),
        }
    }
}

/// A transaction output: an amount, and the script that says who may spend it.
/// The script is held as its raw bytes.
#[derive(PartialEq, Eq, Debug, Clone)]
pub struct TxOut {
    /// The amount, in the smallest unit of the ledger.
    pub value: u64,
    /// The script, byte for byte.
    pub script_pubkey: Vec<u8>,
}

/// The data that a script carries, from what was read off it: whether it
/// starts with `OP_RETURN`, and what its second instruction pushes. A script
/// of another kind carries none, and neither does one whose second instruction
/// is missing or is no push.
pub open spec fn carried_data(op_return: bool, pushed: Option<Seq<u8>>) -> Seq<u8> {
    match pushed {
        Some(data) if op_return => data,
        _ => Seq::empty(),
    }
}

/// The data that `script` carries.
pub open spec fn op_return_data(script: Seq<u8>) -> Seq<u8> {
    carried_data(is_op_return(script), pushed_bytes(script, 1))
}

/// `script` belongs to a marker output: it starts with `OP_RETURN`, and a
/// payload can be read from the data it carries.
pub open spec fn is_marker_script(script: Seq<u8>) -> bool {
    is_op_return(script) && parse_payload(op_return_data(script)) is Ok
}

/// The data that a script carries, from what was read off it (see
/// `carried_data`).
pub fn data_carried(op_return: bool, pushed: Option<Vec<u8>>) -> (data: Vec<u8>)
    ensures
        data@ == carried_data(
            op_return,
            match pushed {
                Some(bytes) => Some(bytes@),
                None => None,
            },
        ),
{
    match pushed {
        Some(bytes) => if op_return {
            bytes
        } else {
            Vec::new()
        },
        None => Vec::new(),
    }
}

/// What an output tells about the marker payload it may carry.
///
/// The script is cut into instructions by the `bitcoin` crate, whose reader
/// needs a `usize` of 64 bits.
pub trait TxOutExt {
    /// The raw bytes of the output's script.
    spec fn script(&self) -> Seq<u8>;

    /// The data that the output carries; empty where it carries none.
    fn get_op_return_data(&self) -> (data: Vec<u8>)
        requires
            usize::BITS == 64,
        ensures
            data@ == op_return_data(self.script()),
    ;

    /// Whether this is a marker output. Every reason for which the payload
    /// cannot be read counts alike: the answer is `false`.
    fn is_openassets_marker(&self) -> (yes: bool)
        requires
            usize::BITS == 64,
        ensures
            yes == is_marker_script(self.script()),
    ;

    /// The payload read from the data that the output carries, or the reason
    /// why there is none.
    fn get_oa_payload(&self) -> (r: Result<Payload, DecodeError>)
        requires
            usize::BITS == 64,
        ensures
            match parse_payload(op_return_data(self.script())) {
                Ok((p, n)) => r matches Ok(payload) && payload@ == p,
                Err(e) => r matches Err(f) && f == e,
            },
    ;
}

impl TxOutExt for TxOut {
    open spec fn script(&self) -> Seq<u8> {
        self.script_pubkey@
    }

    fn get_op_return_data(&self) -> (data: Vec<u8>) {
        let script = self.script_pubkey.as_slice();
        if script_is_op_return(script) {
            data_carried(true, script_pushed_bytes(script, 1))
        } else {
            data_carried(false, None)
        }
    }

    fn is_openassets_marker(&self) -> (yes: bool) {
        if script_is_op_return(self.script_pubkey.as_slice()) {
            self.get_oa_payload().is_ok()
        } else {
            false
        }
    }

    fn get_oa_payload(&self) -> (r: Result<Payload, DecodeError>) {
        let data = self.get_op_return_data();
        match Payload::consensus_decode(data.as_slice()) {
            Ok((payload, _)) => Ok(payload),
            Err(e) => Err(e),
        }
    }
}

} // verus!
