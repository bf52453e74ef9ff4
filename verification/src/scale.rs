//! SCALE encoding and decoding of the values this crate stores, made by
//! `parity-scale-codec`.

use vstd::prelude::*;

verus! {

/// The codec's error type, carried through opaquely.
#[verifier::external_type_specification]
#[verifier::external_body]
pub struct ExCodecError(parity_scale_codec::Error);

/// Little-endian bytes of `v`, `n` of them.
pub open spec fn le_bytes(v: nat, n: nat) -> Seq<u8>
    decreases n,
{
    if n == 0 {
        Seq::empty()
    } else {
        seq![(v % 256) as u8] + le_bytes(v / 256, (n - 1) as nat)
    }
}

/// The SCALE encoding of a `u64`: its eight little-endian bytes.
pub open spec fn u64_encoding(v: u64) -> Seq<u8> {
    le_bytes(v as nat, 8)
}

/// `Encode::encode` on a `u64`: the codec writes `v.to_le_bytes()`.
#[verifier::external_body]
pub(crate) fn encode_u64(v: u64) -> (r: Vec<u8>)
    ensures
        r@ == u64_encoding(v),
{
    parity_scale_codec::Encode::encode(&v)
}

/// The SCALE encoding of an optional pair of `u32`s: `0` for none; `1`,
/// then each number as four little-endian bytes.
pub open spec fn option_pair_encoding(c: Option<(u32, u32)>) -> Seq<u8> {
    match c {
        None => seq![0u8],
        Some((a, b)) => seq![1u8] + le_bytes(a as nat, 4) + le_bytes(b as nat, 4),
    }
}

/// `Encode::encode` on an `Option<(u32, u32)>`: the codec writes `0` for
/// `None`, and `1` followed by the pair for `Some`; a pair is its elements
/// in order, a `u32` its `to_le_bytes()`.
#[verifier::external_body]
pub(crate) fn encode_option_pair(c: Option<(u32, u32)>) -> (r: Vec<u8>)
    ensures
        r@ == option_pair_encoding(c),
{
    parity_scale_codec::Encode::encode(&c)
}

/// `Encode::encode` on `()`: the unit type encodes to no bytes.
#[verifier::external_body]
pub(crate) fn encode_unit() -> (r: Vec<u8>)
    ensures
        r@ == Seq::<u8>::empty(),
{
    parity_scale_codec::Encode::encode(&())
}

/// The number whose little-endian bytes are `s`.
pub open spec fn le_value(s: Seq<u8>) -> nat
    decreases s.len(),
{
    if s.len() == 0 {
        0
    } else {
        s[0] as nat + 256 * le_value(s.drop_first())
    }
}

/// `<u64 as Decode>::decode` on a byte slice: the codec reads the first eight
/// bytes as a little-endian number and fails when fewer than eight are there.
#[verifier::external_body]
pub(crate) fn decode_u64(bytes: &[u8]) -> (r: Result<u64, parity_scale_codec::Error>)
    ensures
        r is Ok <==> bytes@.len() >= 8,
        r matches Ok(v) ==> v == le_value(bytes@.subrange(0, 8)),
{
    let mut input: &[u8] = bytes;
    <u64 as parity_scale_codec::Decode>::decode(&mut input)
}

/// The encodings of the numbers of `xs`, one after the other.
pub open spec fn u64s_encoding(xs: Seq<u64>) -> Seq<u8>
    decreases xs.len(),
{
    if xs.len() == 0 {
        Seq::empty()
    } else {
        u64s_encoding(xs.drop_last()) + u64_encoding(xs.last())
    }
}

/// The SCALE encoding of a list of `u64`s: its compact-encoded length,
/// then each number's encoding in order.
pub open spec fn u64_list_encoding(xs: Seq<u64>) -> Seq<u8> {
    compact_len_prefix(xs.len()) + u64s_encoding(xs)
}

/// SCALE encoding of a pruning journal record: the block hash, then the
/// keys inserted and the keys deleted in the block, each as a
/// length-prefixed list.
pub open spec fn journal_record_encoding(hash: u64, inserted: Seq<u64>, deleted: Seq<u64>) -> Seq<u8> {
    u64_encoding(hash) + u64_list_encoding(inserted) + u64_list_encoding(deleted)
}

/// Whether `bytes` start with the encoding of the journal record `v`, whose
/// lists have lengths a SCALE compact `u32` can give.
pub open spec fn starts_with_record(bytes: Seq<u8>, v: (u64, Seq<u64>, Seq<u64>)) -> bool {
    &&& v.1.len() <= u32::MAX
    &&& v.2.len() <= u32::MAX
    &&& journal_record_encoding(v.0, v.1, v.2).is_prefix_of(bytes)
}

/// What SCALE decoding reads from the front of `bytes` as a journal record:
/// the record whose encoding the bytes start with, if there is one (the
/// codec takes only the shortest compact form of a length, so there is at
/// most one).
pub open spec fn journal_record_decoding(bytes: Seq<u8>) -> Option<(u64, Seq<u64>, Seq<u64>)> {
    if exists|v: (u64, Seq<u64>, Seq<u64>)| starts_with_record(bytes, v) {
        Some(choose|v: (u64, Seq<u64>, Seq<u64>)| starts_with_record(bytes, v))
    } else {
        None
    }
}

/// `Encode::encode` on the tuple `(hash, inserted, deleted)`, which is how a
/// journal record is encoded: a tuple is its elements in order, a `u64` its
/// `to_le_bytes()`, a `Vec` its compact-encoded length and then its
/// elements. SCALE decoding gives the encoded value back. The codec panics
/// on a list of more than `u32::MAX` items.
#[verifier::external_body]
pub(crate) fn encode_journal_record(hash: u64, inserted: &Vec<u64>, deleted: &Vec<u64>) -> (r: Vec<u8>)
    requires
        inserted@.len() <= u32::MAX,
        deleted@.len() <= u32::MAX,
    ensures
        r@ == journal_record_encoding(hash, inserted@, deleted@),
        journal_record_decoding(r@) == Some((hash, inserted@, deleted@)),
{
    parity_scale_codec::Encode::encode(&(hash, inserted, deleted))
}

/// `Decode::decode` of a `(u64, Vec<u64>, Vec<u64>)` journal record from the
/// front of `bytes`: the hash's eight little-endian bytes, then each list's
/// compact length (only its shortest form is taken) and that many numbers;
/// it fails when the bytes do not start that way.
#[verifier::external_body]
pub(crate) fn decode_journal_record(bytes: &[u8]) -> (r: Result<(u64, Vec<u64>, Vec<u64>), parity_scale_codec::Error>)
    ensures
        match r {
            Ok((hash, inserted, deleted)) => journal_record_decoding(bytes@) == Some((hash, inserted@, deleted@)),
            Err(_) => journal_record_decoding(bytes@) is None,
        },
{
    let mut input: &[u8] = bytes;
    <(u64, Vec<u64>, Vec<u64>) as parity_scale_codec::Decode>::decode(&mut input)
}

/// Reading back the `n` little-endian bytes of a number below `256^n`
/// gives the number.
pub proof fn lemma_le_roundtrip(v: nat, n: nat)
    requires
        v < pow256(n),
    ensures
        le_bytes(v, n).len() == n,
        le_value(le_bytes(v, n)) == v,
    decreases n,
{
    if n > 0 {
        lemma_le_roundtrip(v / 256, (n - 1) as nat);
        assert(v / 256 < pow256((n - 1) as nat)) by (nonlinear_arith)
            requires
                v < pow256(n),
                pow256(n) == 256 * pow256((n - 1) as nat),
        ;
        let s = le_bytes(v, n);
        assert(s.drop_first() =~= le_bytes(v / 256, (n - 1) as nat));
        assert(v == (v % 256) + 256 * (v / 256)) by (nonlinear_arith);
    }
}

/// `256` to the power `n`.
pub open spec fn pow256(n: nat) -> nat
    decreases n,
{
    if n == 0 {
        1
    } else {
        256 * pow256((n - 1) as nat)
    }
}

/// A `u64` read back from its encoding is the same number.
pub proof fn lemma_u64_roundtrip(v: u64)
    ensures
        u64_encoding(v).len() == 8,
        le_value(u64_encoding(v).subrange(0, 8)) == v,
{
    assert(pow256(8) == 0x1_0000_0000_0000_0000) by {
        reveal_with_fuel(pow256, 9);
    }
    lemma_le_roundtrip(v as nat, 8);
    assert(u64_encoding(v).subrange(0, 8) =~= u64_encoding(v));
}

/// The SCALE compact encoding of a length `n` that fits in a `u32`: one
/// byte `n << 2` below 64, two little-endian bytes `(n << 2) | 1` below
/// 2^14, four little-endian bytes `(n << 2) | 2` below 2^30, and otherwise
/// the byte `3` followed by the four little-endian bytes of `n`.
pub open spec fn compact_len_prefix(n: nat) -> Seq<u8> {
    if n < 64 {
        le_bytes(n * 4, 1)
    } else if n < 0x4000 {
        le_bytes(n * 4 + 1, 2)
    } else if n < 0x4000_0000 {
        le_bytes(n * 4 + 2, 4)
    } else {
        seq![3u8] + le_bytes(n, 4)
    }
}

/// `Compact(n).encode()` for a `u32` count: the compact encoding that
/// collections put before their elements.
#[verifier::external_body]
pub(crate) fn encode_compact_len(n: usize) -> (r: Vec<u8>)
    requires
        n <= u32::MAX,
    ensures
        r@ == compact_len_prefix(n as nat),
{
    parity_scale_codec::Encode::encode(&parity_scale_codec::Compact(n as u32))
}

/// `Encode::encode` on a byte slice: the compact-encoded length, then the
/// bytes themselves. The codec panics on more than `u32::MAX` bytes.
#[verifier::external_body]
pub(crate) fn encode_bytes(data: &[u8]) -> (r: Vec<u8>)
    requires
        data@.len() <= u32::MAX,
    ensures
        r@ == compact_len_prefix(data@.len()) + data@,
{
    parity_scale_codec::Encode::encode(data)
}

} // verus!
