//! The per-primitive-type transfer contract: every scalar the codec carries
//! knows its fixed wire width, its encoding under either byte order, and its
//! decoding, and can move itself through a reflector in whichever direction
//! the reflector is bound to.

use vstd::prelude::*;

use crate::reflector::Reflector;
use crate::types::CodecError;
use crate::types::Direction;
use crate::types::Endianness;
use crate::wire::bool_byte;
use crate::wire::i16_bits;
use crate::wire::i16_of_bits;
use crate::wire::i32_bits;
use crate::wire::i32_of_bits;
use crate::wire::i64_bits;
use crate::wire::i64_of_bits;
use crate::wire::i8_bits;
use crate::wire::i8_of_bits;
use crate::wire::lemma_pow256_values;
use crate::wire::lemma_uint_round_trip;
use crate::wire::lemma_uint_to_bytes_len;
use crate::wire::uint_of_bytes;
use crate::wire::uint_to_bytes;

verus! {

/// What one primitive transfer does to the reflector and the value, in both
/// directions. Writing appends exactly the value's encoding and never touches
/// the value; reading consumes exactly the wire width and decodes it into the
/// value, failing (and changing nothing) exactly when too few bytes remain.
pub open spec fn transfer_post<T: Primitive>(
    rp: Reflector,
    rq: Reflector,
    vp: T,
    vq: T,
    res: Result<(), CodecError>,
) -> bool {
    &&& rq.wf()
    &&& rq.direction() == rp.direction()
    &&& rq.endianness() == rp.endianness()
    &&& rp.is_writing() ==> {
        &&& res is Ok
        &&& rq.bytes() == rp.bytes() + T::enc(rp.endianness(), vp)
        &&& vq == vp
    }
    &&& rp.is_reading() ==> {
        &&& rq.bytes() == rp.bytes()
        &&& (res is Ok <==> rp.position() + T::width() <= rp.bytes().len())
        &&& (res is Ok ==> {
            &&& rq.position() == rp.position() + T::width()
            &&& vq == T::dec(
                rp.endianness(),
                rp.bytes().subrange(rp.position() as int, (rp.position() + T::width()) as int),
            )
        })
        &&& (res is Err ==> {
            &&& res == Err::<(), CodecError>(CodecError::ShortRead)
            &&& rq.position() == rp.position()
            &&& vq == vp
        })
    }
}

/// A scalar with a fixed wire width of 1, 2, 4 or 8 bytes.
pub trait Primitive: Sized + Copy {
    /// The number of bytes one value occupies on the wire.
    spec fn width() -> nat;

    /// The value's bytes under byte order `e`.
    spec fn enc(e: Endianness, v: Self) -> Seq<u8>;

    /// The value a byte sequence of the wire width decodes to under `e`.
    spec fn dec(e: Endianness, s: Seq<u8>) -> Self;

    proof fn lemma_enc_len(e: Endianness, v: Self)
        ensures
            Self::enc(e, v).len() == Self::width(),
            1 <= Self::width() <= 8,
    ;

    /// The round-trip law: decoding a value's own encoding gives the value
    /// back, bit for bit, under either byte order.
    proof fn lemma_enc_dec(e: Endianness, v: Self)
        ensures
            Self::dec(e, Self::enc(e, v)) == v,
    ;

    /// The canonical zero value, used to fill fresh collection slots.
    fn zero() -> Self;

    /// Moves this value through the reflector: appends its encoding when
    /// writing, overwrites it with the decoded input when reading. Writing
    /// appends exactly the value's encoding and never changes the value;
    /// reading consumes exactly the wire width and fails (changing nothing)
    /// exactly when too few input bytes remain.
    fn transfer(&mut self, r: &mut Reflector) -> (res: Result<(), CodecError>)
        requires
            old(r).wf(),
        ensures
            final(r).wf(),
            final(r).direction() == old(r).direction(),
            final(r).endianness() == old(r).endianness(),
            old(r).is_writing() ==> {
                &&& res is Ok
                &&& final(r).bytes() == old(r).bytes() + Self::enc(old(r).endianness(), *old(self))
                &&& *final(self) == *old(self)
            },
            old(r).is_reading() ==> {
                &&& final(r).bytes() == old(r).bytes()
                &&& (res is Ok <==> old(r).position() + Self::width() <= old(r).bytes().len())
                &&& (res is Ok ==> {
                    &&& final(r).position() == old(r).position() + Self::width()
                    &&& *final(self) == Self::dec(
                        old(r).endianness(),
                        old(r).bytes().subrange(
                            old(r).position() as int,
                            (old(r).position() + Self::width()) as int,
                        ),
                    )
                })
                &&& (res is Err ==> {
                    &&& res == Err::<(), CodecError>(CodecError::ShortRead)
                    &&& final(r).position() == old(r).position()
                    &&& *final(self) == *old(self)
                })
            },
    ;
}

impl Primitive for u8 {
    open spec fn width() -> nat {
        1
    }

    open spec fn enc(e: Endianness, v: u8) -> Seq<u8> {
        uint_to_bytes(e, v as nat, 1)
    }

    open spec fn dec(e: Endianness, s: Seq<u8>) -> u8 {
        (uint_of_bytes(e, s) % 0x100) as u8
    }

    proof fn lemma_enc_len(e: Endianness, v: u8) {
        lemma_uint_to_bytes_len(e, v as nat, 1);
    }

    proof fn lemma_enc_dec(e: Endianness, v: u8) {
        lemma_pow256_values();
        lemma_uint_round_trip(e, v as nat, 1);
    }

    fn zero() -> Self {
        0
    }

    fn transfer(&mut self, r: &mut Reflector) -> (res: Result<(), CodecError>) {
        proof {
            lemma_pow256_values();
        }
        match r.get_direction() {
            Direction::Writing => {
                r.write_uint(*self as u64, 1);
                Ok(())
            },
            Direction::Reading => {
                let x = match r.read_uint(1) {
                    Ok(x) => x,
                    Err(er) => {
                        return Err(er);
                    },
                };
                *self = x as u8;
                Ok(())
            },
        }
    }
}

impl Primitive for u16 {
    open spec fn width() -> nat {
        2
    }

    open spec fn enc(e: Endianness, v: u16) -> Seq<u8> {
        uint_to_bytes(e, v as nat, 2)
    }

    open spec fn dec(e: Endianness, s: Seq<u8>) -> u16 {
        (uint_of_bytes(e, s) % 0x10000) as u16
    }

    proof fn lemma_enc_len(e: Endianness, v: u16) {
        lemma_uint_to_bytes_len(e, v as nat, 2);
    }

    proof fn lemma_enc_dec(e: Endianness, v: u16) {
        lemma_pow256_values();
        lemma_uint_round_trip(e, v as nat, 2);
    }

    fn zero() -> Self {
        0
    }

    fn transfer(&mut self, r: &mut Reflector) -> (res: Result<(), CodecError>) {
        proof {
            lemma_pow256_values();
        }
        match r.get_direction() {
            Direction::Writing => {
                r.write_uint(*self as u64, 2);
                Ok(())
            },
            Direction::Reading => {
                let x = match r.read_uint(2) {
                    Ok(x) => x,
                    Err(er) => {
                        return Err(er);
                    },
                };
                *self = x as u16;
                Ok(())
            },
        }
    }
}

impl Primitive for u32 {
    open spec fn width() -> nat {
        4
    }

    open spec fn enc(e: Endianness, v: u32) -> Seq<u8> {
        uint_to_bytes(e, v as nat, 4)
    }

    open spec fn dec(e: Endianness, s: Seq<u8>) -> u32 {
        (uint_of_bytes(e, s) % 0x100000000) as u32
    }

    proof fn lemma_enc_len(e: Endianness, v: u32) {
        lemma_uint_to_bytes_len(e, v as nat, 4);
    }

    proof fn lemma_enc_dec(e: Endianness, v: u32) {
        lemma_pow256_values();
        lemma_uint_round_trip(e, v as nat, 4);
    }

    fn zero() -> Self {
        0
    }

    fn transfer(&mut self, r: &mut Reflector) -> (res: Result<(), CodecError>) {
        proof {
            lemma_pow256_values();
        }
        match r.get_direction() {
            Direction::Writing => {
                r.write_uint(*self as u64, 4);
                Ok(())
            },
            Direction::Reading => {
                let x = match r.read_uint(4) {
                    Ok(x) => x,
                    Err(er) => {
                        return Err(er);
                    },
                };
                *self = x as u32;
                Ok(())
            },
        }
    }
}

impl Primitive for u64 {
    open spec fn width() -> nat {
        8
    }

    open spec fn enc(e: Endianness, v: u64) -> Seq<u8> {
        uint_to_bytes(e, v as nat, 8)
    }

    open spec fn dec(e: Endianness, s: Seq<u8>) -> u64 {
        (uint_of_bytes(e, s) % 0x10000000000000000) as u64
    }

    proof fn lemma_enc_len(e: Endianness, v: u64) {
        lemma_uint_to_bytes_len(e, v as nat, 8);
    }

    proof fn lemma_enc_dec(e: Endianness, v: u64) {
        lemma_pow256_values();
        lemma_uint_round_trip(e, v as nat, 8);
    }

    fn zero() -> Self {
        0
    }

    fn transfer(&mut self, r: &mut Reflector) -> (res: Result<(), CodecError>) {
        proof {
            lemma_pow256_values();
        }
        match r.get_direction() {
            Direction::Writing => {
                r.write_uint(*self, 8);
                Ok(())
            },
            Direction::Reading => {
                let x = match r.read_uint(8) {
                    Ok(x) => x,
                    Err(er) => {
                        return Err(er);
                    },
                };
                *self = x;
                Ok(())
            },
        }
    }
}

impl Primitive for i8 {
    open spec fn width() -> nat {
        1
    }

    open spec fn enc(e: Endianness, v: i8) -> Seq<u8> {
        uint_to_bytes(e, i8_bits(v) as nat, 1)
    }

    open spec fn dec(e: Endianness, s: Seq<u8>) -> i8 {
        i8_of_bits((uint_of_bytes(e, s) % 0x100) as u8)
    }

    proof fn lemma_enc_len(e: Endianness, v: i8) {
        lemma_uint_to_bytes_len(e, i8_bits(v) as nat, 1);
    }

    proof fn lemma_enc_dec(e: Endianness, v: i8) {
        lemma_pow256_values();
        lemma_uint_round_trip(e, i8_bits(v) as nat, 1);
    }

    fn zero() -> Self {
        0
    }

    fn transfer(&mut self, r: &mut Reflector) -> (res: Result<(), CodecError>) {
        proof {
            lemma_pow256_values();
        }
        match r.get_direction() {
            Direction::Writing => {
                let bits: u8 = if *self >= 0 {
                    *self as u8
                } else {
                    ((*self as i16) + 0x100) as u8
                };
                r.write_uint(bits as u64, 1);
                Ok(())
            },
            Direction::Reading => {
                let x = match r.read_uint(1) {
                    Ok(x) => x,
                    Err(er) => {
                        return Err(er);
                    },
                };
                let u = x as u8;
                *self = if u < 0x80 {
                    u as i8
                } else {
                    ((u as i16) - 0x100) as i8
                };
                Ok(())
            },
        }
    }
}

impl Primitive for i16 {
    open spec fn width() -> nat {
        2
    }

    open spec fn enc(e: Endianness, v: i16) -> Seq<u8> {
        uint_to_bytes(e, i16_bits(v) as nat, 2)
    }

    open spec fn dec(e: Endianness, s: Seq<u8>) -> i16 {
        i16_of_bits((uint_of_bytes(e, s) % 0x10000) as u16)
    }

    proof fn lemma_enc_len(e: Endianness, v: i16) {
        lemma_uint_to_bytes_len(e, i16_bits(v) as nat, 2);
    }

    proof fn lemma_enc_dec(e: Endianness, v: i16) {
        lemma_pow256_values();
        lemma_uint_round_trip(e, i16_bits(v) as nat, 2);
    }

    fn zero() -> Self {
        0
    }

    fn transfer(&mut self, r: &mut Reflector) -> (res: Result<(), CodecError>) {
        proof {
            lemma_pow256_values();
        }
        match r.get_direction() {
            Direction::Writing => {
                let bits: u16 = if *self >= 0 {
                    *self as u16
                } else {
                    ((*self as i32) + 0x10000) as u16
                };
                r.write_uint(bits as u64, 2);
                Ok(())
            },
            Direction::Reading => {
                let x = match r.read_uint(2) {
                    Ok(x) => x,
                    Err(er) => {
                        return Err(er);
                    },
                };
                let u = x as u16;
                *self = if u < 0x8000 {
                    u as i16
                } else {
                    ((u as i32) - 0x10000) as i16
                };
                Ok(())
            },
        }
    }
}

impl Primitive for i32 {
    open spec fn width() -> nat {
        4
    }

    open spec fn enc(e: Endianness, v: i32) -> Seq<u8> {
        uint_to_bytes(e, i32_bits(v) as nat, 4)
    }

    open spec fn dec(e: Endianness, s: Seq<u8>) -> i32 {
        i32_of_bits((uint_of_bytes(e, s) % 0x100000000) as u32)
    }

    proof fn lemma_enc_len(e: Endianness, v: i32) {
        lemma_uint_to_bytes_len(e, i32_bits(v) as nat, 4);
    }

    proof fn lemma_enc_dec(e: Endianness, v: i32) {
        lemma_pow256_values();
        lemma_uint_round_trip(e, i32_bits(v) as nat, 4);
    }

    fn zero() -> Self {
        0
    }

    fn transfer(&mut self, r: &mut Reflector) -> (res: Result<(), CodecError>) {
        proof {
            lemma_pow256_values();
        }
        match r.get_direction() {
            Direction::Writing => {
                let bits: u32 = if *self >= 0 {
                    *self as u32
                } else {
                    ((*self as i64) + 0x100000000) as u32
                };
                r.write_uint(bits as u64, 4);
                Ok(())
            },
            Direction::Reading => {
                let x = match r.read_uint(4) {
                    Ok(x) => x,
                    Err(er) => {
                        return Err(er);
                    },
                };
                let u = x as u32;
                *self = if u < 0x80000000 {
                    u as i32
                } else {
                    ((u as i64) - 0x100000000) as i32
                };
                Ok(())
            },
        }
    }
}

impl Primitive for i64 {
    open spec fn width() -> nat {
        8
    }

    open spec fn enc(e: Endianness, v: i64) -> Seq<u8> {
        uint_to_bytes(e, i64_bits(v) as nat, 8)
    }

    open spec fn dec(e: Endianness, s: Seq<u8>) -> i64 {
        i64_of_bits((uint_of_bytes(e, s) % 0x10000000000000000) as u64)
    }

    proof fn lemma_enc_len(e: Endianness, v: i64) {
        lemma_uint_to_bytes_len(e, i64_bits(v) as nat, 8);
    }

    proof fn lemma_enc_dec(e: Endianness, v: i64) {
        lemma_pow256_values();
        lemma_uint_round_trip(e, i64_bits(v) as nat, 8);
    }

    fn zero() -> Self {
        0
    }

    fn transfer(&mut self, r: &mut Reflector) -> (res: Result<(), CodecError>) {
        proof {
            lemma_pow256_values();
        }
        match r.get_direction() {
            Direction::Writing => {
                let bits: u64 = if *self >= 0 {
                    *self as u64
                } else {
                    (((*self as i128) + 0x10000000000000000) as u64)
                };
                r.write_uint(bits, 8);
                Ok(())
            },
            Direction::Reading => {
                let x = match r.read_uint(8) {
                    Ok(x) => x,
                    Err(er) => {
                        return Err(er);
                    },
                };
                *self = if x < 0x8000000000000000 {
                    x as i64
                } else {
                    (((x as i128) - 0x10000000000000000) as i64)
                };
                Ok(())
            },
        }
    }
}

impl Primitive for bool {
    open spec fn width() -> nat {
        1
    }

    open spec fn enc(e: Endianness, v: bool) -> Seq<u8> {
        uint_to_bytes(e, bool_byte(v) as nat, 1)
    }

    /// The tolerant decode: any nonzero byte reads back as true, while the
    /// encode side only ever produces 0 or 1. This asymmetry is deliberate.
    open spec fn dec(e: Endianness, s: Seq<u8>) -> bool {
        uint_of_bytes(e, s) % 0x100 != 0
    }

    proof fn lemma_enc_len(e: Endianness, v: bool) {
        lemma_uint_to_bytes_len(e, bool_byte(v) as nat, 1);
    }

    proof fn lemma_enc_dec(e: Endianness, v: bool) {
        lemma_pow256_values();
        lemma_uint_round_trip(e, bool_byte(v) as nat, 1);
    }

    fn zero() -> Self {
        false
    }

    fn transfer(&mut self, r: &mut Reflector) -> (res: Result<(), CodecError>) {
        let mut byte: u8 = if *self {
            1
        } else {
            0
        };
        match byte.transfer(r) {
            Ok(()) => {
                *self = byte != 0;
                Ok(())
            },
            Err(er) => Err(er),
        }
    }
}

impl Reflector {
    /// Transfers one `u8`: appends its encoding when writing, decodes the
    /// next input bytes into it when reading.
    pub fn reflect_u8(&mut self, data: &mut u8) -> (res: Result<(), CodecError>)
        requires
            old(self).wf(),
        ensures
            transfer_post::<u8>(*old(self), *final(self), *old(data), *final(data), res),
    {
        data.transfer(self)
    }

    /// Transfers one `u16`: appends its encoding when writing, decodes the
    /// next input bytes into it when reading.
    pub fn reflect_u16(&mut self, data: &mut u16) -> (res: Result<(), CodecError>)
        requires
            old(self).wf(),
        ensures
            transfer_post::<u16>(*old(self), *final(self), *old(data), *final(data), res),
    {
        data.transfer(self)
    }

    /// Transfers one `u32`: appends its encoding when writing, decodes the
    /// next input bytes into it when reading.
    pub fn reflect_u32(&mut self, data: &mut u32) -> (res: Result<(), CodecError>)
        requires
            old(self).wf(),
        ensures
            transfer_post::<u32>(*old(self), *final(self), *old(data), *final(data), res),
    {
        data.transfer(self)
    }

    /// Transfers one `u64`: appends its encoding when writing, decodes the
    /// next input bytes into it when reading.
    pub fn reflect_u64(&mut self, data: &mut u64) -> (res: Result<(), CodecError>)
        requires
            old(self).wf(),
        ensures
            transfer_post::<u64>(*old(self), *final(self), *old(data), *final(data), res),
    {
        data.transfer(self)
    }

    /// Transfers one `i8`, as its two's-complement bit image: appends its encoding when writing, decodes the
    /// next input bytes into it when reading.
    pub fn reflect_i8(&mut self, data: &mut i8) -> (res: Result<(), CodecError>)
        requires
            old(self).wf(),
        ensures
            transfer_post::<i8>(*old(self), *final(self), *old(data), *final(data), res),
    {
        data.transfer(self)
    }

    /// Transfers one `i16`, as its two's-complement bit image: appends its encoding when writing, decodes the
    /// next input bytes into it when reading.
    pub fn reflect_i16(&mut self, data: &mut i16) -> (res: Result<(), CodecError>)
        requires
            old(self).wf(),
        ensures
            transfer_post::<i16>(*old(self), *final(self), *old(data), *final(data), res),
    {
        data.transfer(self)
    }

    /// Transfers one `i32`, as its two's-complement bit image: appends its encoding when writing, decodes the
    /// next input bytes into it when reading.
    pub fn reflect_i32(&mut self, data: &mut i32) -> (res: Result<(), CodecError>)
        requires
            old(self).wf(),
        ensures
            transfer_post::<i32>(*old(self), *final(self), *old(data), *final(data), res),
    {
        data.transfer(self)
    }

    /// Transfers one `i64`, as its two's-complement bit image: appends its encoding when writing, decodes the
    /// next input bytes into it when reading.
    pub fn reflect_i64(&mut self, data: &mut i64) -> (res: Result<(), CodecError>)
        requires
            old(self).wf(),
        ensures
            transfer_post::<i64>(*old(self), *final(self), *old(data), *final(data), res),
    {
        data.transfer(self)
    }

    /// Transfers one boolean as a single byte: a canonical 1 or 0 when
    /// writing, and tolerantly on reading, where any nonzero byte decodes to
    /// true. The asymmetry is deliberate and part of the wire contract.
    pub fn reflect_bool(&mut self, data: &mut bool) -> (res: Result<(), CodecError>)
        requires
            old(self).wf(),
        ensures
            transfer_post::<bool>(*old(self), *final(self), *old(data), *final(data), res),
    {
        data.transfer(self)
    }

    /// Transfers one `f32` as its IEEE-754 bit pattern: the `u32` holding the
    /// same bits travels instead, so NaN payloads and the sign of zero are
    /// preserved exactly. Byte order applies to the bytes, never the numeric
    /// value. Callers move between the float and its bits with
    /// `f32::to_bits` and `f32::from_bits`.
    pub fn reflect_f32_bits(&mut self, bits: &mut u32) -> (res: Result<(), CodecError>)
        requires
            old(self).wf(),
        ensures
            transfer_post::<u32>(*old(self), *final(self), *old(bits), *final(bits), res),
    {
        bits.transfer(self)
    }

    /// Transfers one `f64` as its IEEE-754 bit pattern, as `reflect_f32_bits`
    /// does for `f32`.
    pub fn reflect_f64_bits(&mut self, bits: &mut u64) -> (res: Result<(), CodecError>)
        requires
            old(self).wf(),
        ensures
            transfer_post::<u64>(*old(self), *final(self), *old(bits), *final(bits), res),
    {
        bits.transfer(self)
    }
}

} // verus!
