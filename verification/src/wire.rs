//! The mathematical model of the wire format: unsigned values as byte
//! sequences in either byte order, the two's-complement bit images of the
//! signed scalars, and the self-describing width-tagged size encoding.

use vstd::prelude::*;

use crate::types::Endianness;
use crate::types::SizePolicy;

verus! {

/// 256 to the power `w`: the number of values a `w`-byte field can hold.
pub open spec fn pow256(w: nat) -> nat
    decreases w,
{
    if w == 0 {
        1
    } else {
        256 * pow256((w - 1) as nat)
    }
}

/// The little-endian encoding of `v` in `w` bytes, lowest byte first.
/// Only the low `w` bytes of `v` are represented.
pub open spec fn le_bytes(v: nat, w: nat) -> Seq<u8>
    decreases w,
{
    if w == 0 {
        Seq::empty()
    } else {
        seq![(v % 256) as u8] + le_bytes(v / 256, (w - 1) as nat)
    }
}

/// The unsigned value of a little-endian byte sequence.
pub open spec fn le_val(s: Seq<u8>) -> nat
    decreases s.len(),
{
    if s.len() == 0 {
        0
    } else {
        (s[0] + 256 * le_val(s.drop_first())) as nat
    }
}

/// The encoding of `v` in `w` bytes under byte order `e`.
pub open spec fn uint_to_bytes(e: Endianness, v: nat, w: nat) -> Seq<u8> {
    match e {
        Endianness::LittleEndian => le_bytes(v, w),
        Endianness::BigEndian => le_bytes(v, w).reverse(),
    }
}

/// The unsigned value of a byte sequence read under byte order `e`.
pub open spec fn uint_of_bytes(e: Endianness, s: Seq<u8>) -> nat {
    match e {
        Endianness::LittleEndian => le_val(s),
        Endianness::BigEndian => le_val(s.reverse()),
    }
}

pub proof fn lemma_le_bytes_len(v: nat, w: nat)
    ensures
        le_bytes(v, w).len() == w,
    decreases w,
{
    if w > 0 {
        lemma_le_bytes_len(v / 256, (w - 1) as nat);
    }
}

pub proof fn lemma_le_val_bound(s: Seq<u8>)
    ensures
        le_val(s) < pow256(s.len()),
    decreases s.len(),
{
    if s.len() > 0 {
        lemma_le_val_bound(s.drop_first());
    }
}

pub proof fn lemma_le_round_trip(v: nat, w: nat)
    requires
        v < pow256(w),
    ensures
        le_val(le_bytes(v, w)) == v,
    decreases w,
{
    if w > 0 {
        let rest = le_bytes(v / 256, (w - 1) as nat);
        lemma_le_bytes_len(v / 256, (w - 1) as nat);
        assert(le_bytes(v, w).drop_first() =~= rest);
        assert(v / 256 < pow256((w - 1) as nat)) by {
            vstd::arithmetic::div_mod::lemma_div_by_multiple_is_strongly_ordered(
                v as int,
                pow256(w) as int,
                pow256((w - 1) as nat) as int,
                256,
            );
            vstd::arithmetic::div_mod::lemma_div_multiples_vanish(
                pow256((w - 1) as nat) as int,
                256,
            );
        }
        lemma_le_round_trip(v / 256, (w - 1) as nat);
        vstd::arithmetic::div_mod::lemma_fundamental_div_mod(v as int, 256);
    }
}

pub proof fn lemma_uint_to_bytes_len(e: Endianness, v: nat, w: nat)
    ensures
        uint_to_bytes(e, v, w).len() == w,
{
    lemma_le_bytes_len(v, w);
}

pub proof fn lemma_uint_of_bytes_bound(e: Endianness, s: Seq<u8>)
    ensures
        uint_of_bytes(e, s) < pow256(s.len()),
{
    match e {
        Endianness::LittleEndian => lemma_le_val_bound(s),
        Endianness::BigEndian => lemma_le_val_bound(s.reverse()),
    }
}

/// Decoding the encoding of any value gives the value back, in either byte
/// order, for any field width that the value fits.
pub proof fn lemma_uint_round_trip(e: Endianness, v: nat, w: nat)
    requires
        v < pow256(w),
    ensures
        uint_of_bytes(e, uint_to_bytes(e, v, w)) == v,
{
    lemma_le_round_trip(v, w);
    if e is BigEndian {
        lemma_le_bytes_len(v, w);
        assert(le_bytes(v, w).reverse().reverse() =~= le_bytes(v, w));
    }
}

/// Unfolding step for reading a little-endian value from the low index up:
/// dropping the next-lowest byte scales the remaining value by 256.
pub proof fn lemma_le_val_step(s: Seq<u8>, i: int)
    requires
        0 <= i < s.len(),
    ensures
        le_val(s.skip(i)) == s[i] + 256 * le_val(s.skip(i + 1)),
{
    assert(s.skip(i).drop_first() =~= s.skip(i + 1));
    assert(s.skip(i)[0] == s[i]);
}

/// Unfolding step for reading a big-endian value from the high index down:
/// each further byte becomes the new lowest digit of the reversed prefix.
pub proof fn lemma_be_val_step(s: Seq<u8>, i: int)
    requires
        0 <= i < s.len(),
    ensures
        le_val(s.take(i + 1).reverse()) == s[i] + 256 * le_val(s.take(i).reverse()),
{
    let q = seq![s[i]] + s.take(i).reverse();
    assert(s.take(i + 1).reverse() =~= q);
    assert(q.drop_first() =~= s.take(i).reverse());
    assert(q[0] == s[i]);
}

/// A one-byte field looks the same under either byte order.
pub proof fn lemma_single_byte_enc(e: Endianness, v: u8)
    ensures
        uint_to_bytes(e, v as nat, 1) == seq![v],
{
    assert(le_bytes(((v as nat) / 256) as nat, 0) =~= Seq::<u8>::empty());
    assert(le_bytes(v as nat, 1) =~= seq![v]);
    assert(seq![v].reverse() =~= seq![v]);
}

/// A one-byte sequence reads as its only byte under either byte order.
pub proof fn lemma_single_byte_val(e: Endianness, s: Seq<u8>)
    requires
        s.len() == 1,
    ensures
        uint_of_bytes(e, s) == s[0],
{
    assert(s.reverse() =~= s);
    assert(s.drop_first().len() == 0);
    assert(le_val(s.drop_first()) == 0);
}

pub proof fn lemma_pow256_le(a: nat, b: nat)
    requires
        a <= b,
    ensures
        pow256(a) <= pow256(b),
    decreases b,
{
    if a < b {
        lemma_pow256_le(a, (b - 1) as nat);
    }
}

pub proof fn lemma_pow256_values()
    ensures
        pow256(0) == 1,
        pow256(1) == 0x100,
        pow256(2) == 0x10000,
        pow256(4) == 0x100000000,
        pow256(8) == 0x10000000000000000,
{
    assert(pow256(0) == 1);
    assert(pow256(1) == 0x100);
    assert(pow256(2) == 0x10000);
    assert(pow256(3) == 0x1000000);
    assert(pow256(4) == 0x100000000);
    assert(pow256(5) == 0x10000000000);
    assert(pow256(6) == 0x1000000000000);
    assert(pow256(7) == 0x100000000000000);
    assert(pow256(8) == 0x10000000000000000);
}

/// The two's-complement bit image of an `i8`, as the unsigned value of the
/// same width. The byte layout on the wire is exactly this value's.
pub open spec fn i8_bits(v: i8) -> u8 {
    if v >= 0 {
        v as u8
    } else {
        (v + 0x100) as u8
    }
}

pub open spec fn i8_of_bits(u: u8) -> i8 {
    if u < 0x80 {
        u as i8
    } else {
        (u - 0x100) as i8
    }
}

/// The two's-complement bit image of an `i16`.
pub open spec fn i16_bits(v: i16) -> u16 {
    if v >= 0 {
        v as u16
    } else {
        (v + 0x10000) as u16
    }
}

pub open spec fn i16_of_bits(u: u16) -> i16 {
    if u < 0x8000 {
        u as i16
    } else {
        (u - 0x10000) as i16
    }
}

/// The two's-complement bit image of an `i32`.
pub open spec fn i32_bits(v: i32) -> u32 {
    if v >= 0 {
        v as u32
    } else {
        (v + 0x100000000) as u32
    }
}

pub open spec fn i32_of_bits(u: u32) -> i32 {
    if u < 0x80000000 {
        u as i32
    } else {
        (u - 0x100000000) as i32
    }
}

/// The two's-complement bit image of an `i64`.
pub open spec fn i64_bits(v: i64) -> u64 {
    if v >= 0 {
        v as u64
    } else {
        (v + 0x10000000000000000) as u64
    }
}

pub open spec fn i64_of_bits(u: u64) -> i64 {
    if u < 0x8000000000000000 {
        u as i64
    } else {
        (u - 0x10000000000000000) as i64
    }
}

/// A boolean's canonical one-byte encoding: 1 for true, 0 for false.
pub open spec fn bool_byte(v: bool) -> u8 {
    if v {
        1
    } else {
        0
    }
}

/// The width tag the automatic size codec picks: the smallest of 1, 2, 4 or
/// 8 bytes whose range covers the length. The tag byte is the literal width.
pub open spec fn auto_size_tag(n: nat) -> u8 {
    if n <= 0xFF {
        1
    } else if n <= 0xFFFF {
        2
    } else if n <= 0xFFFFFFFF {
        4
    } else {
        8
    }
}

/// Whether a width-tag byte read from the wire is one the codec understands.
pub open spec fn valid_size_tag(t: u8) -> bool {
    t == 1 || t == 2 || t == 4 || t == 8
}

/// The number of length bytes that follow a width-tag byte.
pub open spec fn tag_width(t: u8) -> nat {
    if t == 1 {
        1
    } else if t == 2 {
        2
    } else if t == 4 {
        4
    } else if t == 8 {
        8
    } else {
        0
    }
}

/// The width tag a forced size policy prescribes.
pub open spec fn policy_tag(p: SizePolicy) -> u8 {
    match p {
        SizePolicy::U8 => 1,
        SizePolicy::U16 => 2,
        SizePolicy::U32 => 4,
        SizePolicy::U64 => 8,
    }
}

/// The automatic (smallest-fitting) encoding of a length: one tag byte, then
/// that many length bytes in the bound byte order.
pub open spec fn size_enc(e: Endianness, n: nat) -> Seq<u8> {
    seq![auto_size_tag(n)] + uint_to_bytes(e, n, tag_width(auto_size_tag(n)))
}

/// The forced-width encoding of a length under a size policy.
pub open spec fn size_enc_forced(e: Endianness, p: SizePolicy, n: nat) -> Seq<u8> {
    seq![policy_tag(p)] + uint_to_bytes(e, n, tag_width(policy_tag(p)))
}

/// Whether the self-describing size decode succeeds on `s` at position `p`:
/// a valid width tag, that many length bytes behind it, and a decoded length
/// the machine's length type can hold.
pub open spec fn size_parse_ok(e: Endianness, s: Seq<u8>, p: nat) -> bool {
    &&& p < s.len()
    &&& valid_size_tag(s[p as int])
    &&& p + 1 + tag_width(s[p as int]) <= s.len()
    &&& size_parse_val(e, s, p) <= usize::MAX
}

/// The length the self-describing size decode reads from `s` at position `p`.
pub open spec fn size_parse_val(e: Endianness, s: Seq<u8>, p: nat) -> nat {
    uint_of_bytes(e, s.subrange(p + 1 as int, p + 1 + tag_width(s[p as int]) as int))
}

/// The position just past a size field that starts at position `p`.
pub open spec fn size_parse_end(s: Seq<u8>, p: nat) -> nat {
    p + 1 + tag_width(s[p as int])
}


/// Input past what a parse consumes never matters: a size field that parses
/// at `p` in `s` parses identically, to the same value and end position, when
/// any further bytes follow `s`.
pub proof fn lemma_size_parse_ignores_trailing(e: Endianness, s: Seq<u8>, t: Seq<u8>, p: nat)
    requires
        size_parse_ok(e, s, p),
    ensures
        size_parse_ok(e, s + t, p),
        size_parse_val(e, s + t, p) == size_parse_val(e, s, p),
        size_parse_end(s + t, p) == size_parse_end(s, p),
{
    let w = tag_width(s[p as int]);
    assert((s + t)[p as int] == s[p as int]);
    assert((s + t).subrange(p + 1 as int, p + 1 + w as int) =~= s.subrange(
        p + 1 as int,
        p + 1 + w as int,
    ));
}

/// The automatic size encoding is self-describing: its first byte is a valid
/// width tag, its total length is one more than the tagged width, and the
/// length bytes decode to the encoded length.
pub proof fn lemma_size_enc_round_trip(e: Endianness, n: nat)
    requires
        n < pow256(8),
    ensures
        size_enc(e, n).len() == 1 + tag_width(auto_size_tag(n)),
        size_enc(e, n)[0] == auto_size_tag(n),
        valid_size_tag(size_enc(e, n)[0]),
        uint_of_bytes(e, size_enc(e, n).skip(1)) == n,
{
    let t = auto_size_tag(n);
    let w = tag_width(t);
    lemma_pow256_values();
    lemma_uint_to_bytes_len(e, n, w);
    assert(size_enc(e, n).skip(1) =~= uint_to_bytes(e, n, w));
    lemma_uint_round_trip(e, n, w);
}

/// The forced size encoding is read back by the same self-describing decoder:
/// its tag byte is the policy's width, and the length bytes decode to the
/// encoded length whenever the length fits the forced width.
pub proof fn lemma_size_enc_forced_round_trip(e: Endianness, p: SizePolicy, n: nat)
    requires
        n < pow256(tag_width(policy_tag(p))),
    ensures
        size_enc_forced(e, p, n).len() == 1 + tag_width(policy_tag(p)),
        size_enc_forced(e, p, n)[0] == policy_tag(p),
        valid_size_tag(size_enc_forced(e, p, n)[0]),
        uint_of_bytes(e, size_enc_forced(e, p, n).skip(1)) == n,
{
    let t = policy_tag(p);
    let w = tag_width(t);
    lemma_uint_to_bytes_len(e, n, w);
    assert(size_enc_forced(e, p, n).skip(1) =~= uint_to_bytes(e, n, w));
    lemma_uint_round_trip(e, n, w);
}

} // verus!
