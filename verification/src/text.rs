//! Text transfer. Two families live here: general strings, which travel as
//! their raw UTF-8 bytes behind a length prefix, and fixed 8-bit code-page
//! text in code page 866, where decoding consults the code-page table, byte
//! by byte, while encoding is deliberately table-free and lossy: an ASCII
//! character passes through unchanged and anything else becomes a space.

use vstd::prelude::*;
use vstd::string::StrSliceExecFns;

use crate::primitive::Primitive;
use crate::reflector::Reflector;
use crate::types::CodecError;
use crate::types::Direction;
use crate::types::Endianness;
use crate::types::SizePolicy;
use crate::wire::lemma_pow256_values;
use crate::wire::lemma_single_byte_val;

verus! {

/// The character a code page 866 byte decodes to. The table is fixed, so the
/// decode is a pure function of the byte.
pub uninterp spec fn cp866_char(b: u8) -> char;

/// Relies on encoding_rs's IBM866 decoder: code page 866 is a single-byte
/// encoding whose decode is a pure per-byte table lookup, total over all 256
/// byte values, and bytes below 0x80 decode to the identical ASCII character.
#[verifier::external_body]
fn cp866_decode_byte(b: u8) -> (c: char)
    ensures
        c == cp866_char(b),
        b < 0x80 ==> c == b as char,
{
    let buf = [b];
    let (cow, _) = encoding_rs::IBM866.decode_without_bom_handling(&buf);
    cow.chars().next().unwrap_or('\u{fffd}')
}

/// The byte the lossy code-page encode produces for one character: ASCII
/// passes through, everything else becomes a space. The code-page table is
/// not consulted; this asymmetry with the decode side is deliberate.
pub open spec fn cp866_enc_byte(ch: char) -> u8 {
    if (ch as u32) < 0x80 {
        (ch as u32) as u8
    } else {
        32
    }
}

/// The lossy code-page encoding of a character sequence, one byte each.
pub open spec fn cp866_enc(s: Seq<char>) -> Seq<u8> {
    Seq::new(s.len(), |i: int| cp866_enc_byte(s[i]))
}

/// The table-driven decode of a code-page byte sequence, one character each.
pub open spec fn cp866_dec(s: Seq<u8>) -> Seq<char> {
    Seq::new(s.len(), |i: int| cp866_char(s[i]))
}

/// The length byte the fixed-width code-page writer emits: the string's
/// UTF-8 byte length, reduced to one byte.
pub open spec fn cp866_len_byte(s: Seq<char>) -> u8 {
    (((vstd::utf8::encode_utf8(s).len() as usize) as nat) % 0x100) as u8
}

impl Reflector {
    /// Appends the lossy code-page byte of one character.
    fn write_cp866_byte(&mut self, ch: char)
        requires
            old(self).wf(),
            old(self).is_writing(),
        ensures
            final(self).wf(),
            final(self).direction() == old(self).direction(),
            final(self).endianness() == old(self).endianness(),
            final(self).bytes() == old(self).bytes() + seq![cp866_enc_byte(ch)],
    {
        let cu = ch as u32;
        let b: u8 = if cu < 0x80 {
            cu as u8
        } else {
            32
        };
        proof {
            lemma_pow256_values();
            crate::wire::lemma_single_byte_enc(old(self).endianness(), b);
        }
        self.write_uint(b as u64, 1);
    }

    /// Transfers fixed-width code-page text: one length byte, then that many
    /// single-byte code-page characters, no terminator. Writing emits the
    /// string's UTF-8 byte length (reduced to a byte) and then one lossy
    /// code-page byte per character; for a string with characters outside
    /// ASCII the two counts differ, so such a string does not survive a round
    /// trip. Reading trusts the length byte and decodes that many bytes
    /// through the code-page table.
    #[verifier::loop_isolation(false)]
    pub fn reflect_cp866_string(&mut self, string: &mut String) -> (res: Result<(), CodecError>)
        requires
            old(self).wf(),
        ensures
            final(self).wf(),
            final(self).direction() == old(self).direction(),
            final(self).endianness() == old(self).endianness(),
            old(self).is_writing() ==> {
                &&& res is Ok
                &&& final(self).bytes() == old(self).bytes() + seq![
                    cp866_len_byte(old(string)@),
                ] + cp866_enc(old(string)@)
                &&& final(string)@ == old(string)@
            },
            old(self).is_reading() ==> {
                let s = old(self).bytes();
                let p = old(self).position();
                &&& final(self).bytes() == s
                &&& (res is Ok <==> p < s.len() && p + 1 + s[p as int] <= s.len())
                &&& (res is Ok ==> {
                    &&& final(self).position() == p + 1 + s[p as int]
                    &&& final(string)@ == cp866_dec(
                        s.subrange((p + 1) as int, (p + 1 + s[p as int]) as int),
                    )
                })
                &&& (res is Err ==> res == Err::<(), CodecError>(CodecError::ShortRead))
            },
    {
        let ghost e = old(self).endianness();
        let ghost s0 = old(self).bytes();
        let ghost p0 = old(self).position();
        let mut size: u8 = ((string.as_str().len() % 0x100) as u8);
        match self.reflect_u8(&mut size) {
            Ok(()) => {},
            Err(er) => {
                return Err(er);
            },
        }
        proof {
            lemma_pow256_values();
            crate::wire::lemma_single_byte_enc(e, size);
            if old(self).is_reading() {
                lemma_single_byte_val(e, s0.subrange(p0 as int, (p0 + 1) as int));
            }
        }
        match self.get_direction() {
            Direction::Writing => {
                let ghost b1 = self.bytes();
                proof {
                    assert(b1 == s0 + seq![cp866_len_byte(old(string)@)]);
                }
                let n = string.as_str().unicode_len();
                let mut i: usize = 0;
                while i < n
                    invariant
                        i <= n,
                        n == string@.len(),
                        self.wf(),
                        self.is_writing(),
                        self.endianness() == e,
                        self.direction() == old(self).direction(),
                        self.bytes() == b1 + cp866_enc(string@.take(i as int)),
                    decreases n - i,
                {
                    let ch = string.as_str().get_char(i);
                    self.write_cp866_byte(ch);
                    i = i + 1;
                    proof {
                        assert(cp866_enc(string@.take(i - 1)).push(cp866_enc_byte(ch)) =~= cp866_enc(
                            string@.take(i as int),
                        ));
                        assert((b1 + cp866_enc(string@.take(i - 1))) + seq![cp866_enc_byte(ch)]
                            =~= b1 + cp866_enc(string@.take(i as int)));
                    }
                }
                proof {
                    assert(string@.take(n as int) =~= string@);
                    assert((s0 + seq![cp866_len_byte(string@)]) + cp866_enc(string@) =~= s0 + seq![
                        cp866_len_byte(string@),
                    ] + cp866_enc(string@));
                }
                Ok(())
            },
            Direction::Reading => {
                let n = size;
                let ghost q = self.position();
                let mut out = String::new();
                let mut i: usize = 0;
                while (i as u8) < n
                    invariant
                        i <= n,
                        self.wf(),
                        self.is_reading(),
                        self.endianness() == e,
                        self.direction() == old(self).direction(),
                        self.bytes() == s0,
                        self.position() == q + i,
                        out@ == cp866_dec(s0.subrange(q as int, (q + i) as int)),
                    decreases n - i,
                {
                    let mut b: u8 = 0;
                    match self.reflect_u8(&mut b) {
                        Ok(()) => {},
                        Err(er) => {
                            return Err(er);
                        },
                    }
                    proof {
                        lemma_single_byte_val(e, s0.subrange((q + i) as int, (q + i + 1) as int));
                    }
                    let ch = cp866_decode_byte(b);
                    out.push(ch);
                    i = i + 1;
                    proof {
                        assert(cp866_dec(s0.subrange(q as int, (q + i - 1) as int)).push(ch)
                            =~= cp866_dec(s0.subrange(q as int, (q + i) as int)));
                    }
                }
                *string = out;
                Ok(())
            },
        }
    }
}

/// Relies on String::push: it appends exactly the given character.
pub assume_specification[ String::push ](s: &mut String, ch: char)
    ensures
        final(s)@ == old(s)@.push(ch),
;


/// The index of the first zero byte of `s` at or after `p`, or the length of
/// `s` when no zero byte follows.
pub open spec fn first_zero(s: Seq<u8>, p: int) -> int
    decreases s.len() - p,
{
    if p < 0 || p >= s.len() {
        s.len() as int
    } else if s[p] == 0 {
        p
    } else {
        first_zero(s, p + 1)
    }
}

proof fn lemma_first_zero_found(s: Seq<u8>, p: int, k: int)
    requires
        0 <= p <= k < s.len(),
        forall|j: int| p <= j < k ==> s[j] != 0,
        s[k] == 0,
    ensures
        first_zero(s, p) == k,
    decreases k - p,
{
    if p < k {
        lemma_first_zero_found(s, p + 1, k);
    }
}

proof fn lemma_first_zero_none(s: Seq<u8>, p: int)
    requires
        0 <= p <= s.len(),
        forall|j: int| p <= j < s.len() ==> s[j] != 0,
    ensures
        first_zero(s, p) == s.len(),
    decreases s.len() - p,
{
    if p < s.len() {
        lemma_first_zero_none(s, p + 1);
    }
}

impl Reflector {
    /// Transfers zero-terminated code-page text: the characters' lossy
    /// code-page bytes, then a single 0x00 byte. Reading decodes byte after
    /// byte through the code-page table until a zero byte arrives; the
    /// decoded terminator itself is kept as the string's last character,
    /// which callers of this wire format expect.
    #[verifier::loop_isolation(false)]
    pub fn reflect_cp866_zstring(&mut self, string: &mut String) -> (res: Result<(), CodecError>)
        requires
            old(self).wf(),
        ensures
            final(self).wf(),
            final(self).direction() == old(self).direction(),
            final(self).endianness() == old(self).endianness(),
            old(self).is_writing() ==> {
                &&& res is Ok
                &&& final(self).bytes() == old(self).bytes() + cp866_enc(old(string)@) + seq![0u8]
                &&& final(string)@ == old(string)@
            },
            old(self).is_reading() ==> {
                let s = old(self).bytes();
                let p = old(self).position();
                let k = first_zero(s, p as int);
                &&& final(self).bytes() == s
                &&& (res is Ok <==> k < s.len())
                &&& (res is Ok ==> {
                    &&& final(self).position() == k + 1
                    &&& final(string)@ == cp866_dec(s.subrange(p as int, k + 1))
                })
                &&& (res is Err ==> res == Err::<(), CodecError>(CodecError::ShortRead))
            },
    {
        let ghost e = old(self).endianness();
        let ghost s0 = old(self).bytes();
        let ghost p0 = old(self).position();
        match self.get_direction() {
            Direction::Writing => {
                let n = string.as_str().unicode_len();
                let mut i: usize = 0;
                while i < n
                    invariant
                        i <= n,
                        n == string@.len(),
                        self.wf(),
                        self.is_writing(),
                        self.endianness() == e,
                        self.direction() == old(self).direction(),
                        self.bytes() == s0 + cp866_enc(string@.take(i as int)),
                    decreases n - i,
                {
                    let ch = string.as_str().get_char(i);
                    self.write_cp866_byte(ch);
                    i = i + 1;
                    proof {
                        assert(cp866_enc(string@.take(i - 1)).push(cp866_enc_byte(ch)) =~= cp866_enc(
                            string@.take(i as int),
                        ));
                        assert((s0 + cp866_enc(string@.take(i - 1))) + seq![cp866_enc_byte(ch)]
                            =~= s0 + cp866_enc(string@.take(i as int)));
                    }
                }
                proof {
                    lemma_pow256_values();
                    crate::wire::lemma_single_byte_enc(e, 0);
                    assert(string@.take(n as int) =~= string@);
                    assert((s0 + cp866_enc(string@)) + seq![0u8] =~= s0 + cp866_enc(string@)
                        + seq![0u8]);
                }
                self.write_uint(0, 1);
                Ok(())
            },
            Direction::Reading => {
                let mut out = String::new();
                let mut b: u8 = 255;
                proof {
                    assert(cp866_dec(s0.subrange(p0 as int, p0 as int)) =~= Seq::<char>::empty());
                }
                while b != 0
                    invariant
                        self.wf(),
                        self.is_reading(),
                        self.endianness() == e,
                        self.direction() == old(self).direction(),
                        self.bytes() == s0,
                        p0 <= self.position() <= s0.len(),
                        out@ == cp866_dec(s0.subrange(p0 as int, self.position() as int)),
                        self.position() == p0 ==> b != 0,
                        self.position() > p0 ==> b == s0[self.position() - 1],
                        forall|j: int|
                            p0 <= j < self.position() as int - 1 ==> s0[j] != 0,
                    decreases s0.len() - self.position(),
                {
                    proof {
                        if self.position() > p0 {
                            assert(s0[self.position() - 1] != 0);
                        }
                    }
                    match self.reflect_u8(&mut b) {
                        Ok(()) => {},
                        Err(er) => {
                            proof {
                                lemma_first_zero_none(s0, p0 as int);
                            }
                            return Err(er);
                        },
                    }
                    proof {
                        lemma_single_byte_val(
                            e,
                            s0.subrange(self.position() - 1, self.position() as int),
                        );
                        lemma_pow256_values();
                        assert(b == s0[self.position() - 1]);
                    }
                    let ch = cp866_decode_byte(b);
                    out.push(ch);
                    proof {
                        assert(cp866_dec(
                            s0.subrange(p0 as int, self.position() - 1),
                        ).push(ch) =~= cp866_dec(s0.subrange(p0 as int, self.position() as int)));
                    }
                }
                proof {
                    lemma_first_zero_found(s0, p0 as int, self.position() - 1);
                }
                *string = out;
                Ok(())
            },
        }
    }
}


/// Relies on String::from_utf8_lossy: bytes that are valid UTF-8 convert to
/// exactly the string they encode; invalid sequences are replaced, so the
/// conversion never fails.
#[verifier::external_body]
fn string_from_bytes(v: &Vec<u8>) -> (s: String)
    ensures
        vstd::utf8::valid_utf8(v@) ==> s@ == vstd::utf8::decode_utf8(v@),
{
    String::from_utf8_lossy(v.as_slice()).into_owned()
}

/// A byte travels as itself: the concatenated one-byte encodings of a byte
/// sequence are the sequence.
proof fn lemma_concat_enc_u8(e: Endianness, s: Seq<u8>)
    ensures
        crate::arrays::concat_enc::<u8>(e, s) == s,
    decreases s.len(),
{
    if s.len() == 0 {
        assert(crate::arrays::concat_enc::<u8>(e, s) =~= s);
    } else {
        lemma_concat_enc_u8(e, s.drop_first());
        crate::wire::lemma_single_byte_enc(e, s[0]);
        assert(seq![s[0]] + s.drop_first() =~= s);
    }
}

impl Reflector {
    /// Transfers a string as a length-prefixed array over its raw UTF-8
    /// bytes. Writing appends the self-describing size of the byte length
    /// and then the bytes themselves. Reading decodes that many input bytes;
    /// when they are valid UTF-8 the string they encode comes back exactly,
    /// and invalid input yields a string with replacement characters rather
    /// than a failure.
    pub fn reflect_string(&mut self, string: &mut String) -> (res: Result<(), CodecError>)
        requires
            old(self).wf(),
        ensures
            final(self).wf(),
            final(self).direction() == old(self).direction(),
            final(self).endianness() == old(self).endianness(),
            old(self).is_writing() ==> {
                &&& res is Ok
                &&& final(self).bytes() == old(self).bytes() + crate::wire::size_enc(
                    old(self).endianness(),
                    vstd::utf8::encode_utf8(old(string)@).len(),
                ) + vstd::utf8::encode_utf8(old(string)@)
                &&& final(string)@ == old(string)@
            },
            old(self).is_reading() ==> string_read_post(
                *old(self),
                *final(self),
                final(string)@,
                res,
            ),
    {
        let mut buf: Vec<u8> = string.as_str().as_bytes_vec();
        let r = self.reflect_u8_array(&mut buf);
        proof {
            if old(self).is_reading() {
                string_transfer_glue(*old(self), *self, old(string)@, buf@, r);
            } else {
                lemma_concat_enc_u8(old(self).endianness(), vstd::utf8::encode_utf8(old(string)@));
            }
        }
        match r {
            Ok(()) => {},
            Err(er) => {
                return Err(er);
            },
        }
        match self.get_direction() {
            Direction::Reading => {
                *string = string_from_bytes(&buf);
            },
            Direction::Writing => {},
        }
        Ok(())
    }

    /// The forced-width variant of `reflect_string`: the byte-length field is
    /// written at the width the policy forces, and the caller guarantees the
    /// byte length fits that width.
    pub fn reflect_string_ext(&mut self, string: &mut String, size_policy: SizePolicy) -> (res:
        Result<(), CodecError>)
        requires
            old(self).wf(),
            old(self).is_writing() ==> vstd::utf8::encode_utf8(old(string)@).len() < crate::wire::pow256(
                crate::wire::tag_width(crate::wire::policy_tag(size_policy)),
            ),
        ensures
            final(self).wf(),
            final(self).direction() == old(self).direction(),
            final(self).endianness() == old(self).endianness(),
            old(self).is_writing() ==> {
                &&& res is Ok
                &&& final(self).bytes() == old(self).bytes() + crate::wire::size_enc_forced(
                    old(self).endianness(),
                    size_policy,
                    vstd::utf8::encode_utf8(old(string)@).len(),
                ) + vstd::utf8::encode_utf8(old(string)@)
                &&& final(string)@ == old(string)@
            },
            old(self).is_reading() ==> string_read_post(
                *old(self),
                *final(self),
                final(string)@,
                res,
            ),
    {
        let mut buf: Vec<u8> = string.as_str().as_bytes_vec();
        let r = self.reflect_u8_array_ext(&mut buf, size_policy);
        proof {
            if old(self).is_reading() {
                string_transfer_glue(*old(self), *self, old(string)@, buf@, r);
            } else {
                lemma_concat_enc_u8(old(self).endianness(), vstd::utf8::encode_utf8(old(string)@));
            }
        }
        match r {
            Ok(()) => {},
            Err(er) => {
                return Err(er);
            },
        }
        match self.get_direction() {
            Direction::Reading => {
                *string = string_from_bytes(&buf);
            },
            Direction::Writing => {},
        }
        Ok(())
    }
}

/// What reading a length-prefixed string does: it succeeds exactly when a
/// size field parses and that many payload bytes follow; a payload in valid
/// UTF-8 comes back as exactly the string it encodes.
pub open spec fn string_read_post(
    rp: Reflector,
    rq: Reflector,
    sq: Seq<char>,
    res: Result<(), CodecError>,
) -> bool {
    let e = rp.endianness();
    let s = rp.bytes();
    let p = rp.position();
    let n = crate::wire::size_parse_val(e, s, p);
    let q = crate::wire::size_parse_end(s, p);
    &&& rq.bytes() == s
    &&& (res is Ok <==> crate::wire::size_parse_ok(e, s, p) && q + n <= s.len())
    &&& (res is Ok ==> {
        &&& rq.position() == q + n
        &&& (vstd::utf8::valid_utf8(s.subrange(q as int, (q + n) as int)) ==> sq
            == vstd::utf8::decode_utf8(s.subrange(q as int, (q + n) as int)))
    })
    &&& (res is Err ==> res->Err_0 == (if p < s.len() && !crate::wire::valid_size_tag(
        s[p as int],
    ) {
        CodecError::CorruptSizeTag
    } else {
        CodecError::ShortRead
    }))
}

/// Turns the byte-array postconditions into string terms: the buffer a read
/// produced is exactly the consumed payload slice, and the byte-level success
/// condition simplifies because each byte is one wire unit wide.
proof fn string_transfer_glue(
    rp: Reflector,
    rq: Reflector,
    sp: Seq<char>,
    bq: Seq<u8>,
    res: Result<(), CodecError>,
)
    requires
        rp.is_reading(),
        crate::arrays::array_read_post::<u8>(rp, rq, bq, res),
    ensures
        res is Ok ==> bq == rp.bytes().subrange(
            crate::wire::size_parse_end(rp.bytes(), rp.position()) as int,
            (crate::wire::size_parse_end(rp.bytes(), rp.position()) + crate::wire::size_parse_val(
                rp.endianness(),
                rp.bytes(),
                rp.position(),
            )) as int,
        ),
{
    let e = rp.endianness();
    let s = rp.bytes();
    let p = rp.position();
    let n = crate::wire::size_parse_val(e, s, p);
    let q = crate::wire::size_parse_end(s, p);
    if res is Ok {
        let seg = s.subrange(q as int, (q + n) as int);
        assert forall|i: int| 0 <= i < n implies bq[i] == seg[i] by {
            lemma_pow256_values();
            assert(bq[i] == <u8 as Primitive>::dec(
                e,
                s.subrange((q + i * 1) as int, (q + (i + 1) * 1) as int),
            ));
            lemma_single_byte_val(e, s.subrange((q + i) as int, (q + i + 1) as int));
            assert(s.subrange((q + i) as int, (q + i + 1) as int)[0] == s[q + i]);
        }
        assert(bq =~= seg);
    }
}

} // verus!
