//! The reflector: a capability bound to one direction (writing or reading)
//! and one byte order for the duration of a single traversal. In the writing
//! direction it appends encodings to an owned output buffer; in the reading
//! direction it decodes successive fields from an owned input buffer.

use vstd::prelude::*;

use crate::types::CodecError;
use crate::types::Direction;
use crate::types::Endianness;
use crate::types::SizePolicy;
use crate::wire::le_bytes;
use crate::wire::policy_tag;
use crate::wire::size_enc;
use crate::wire::size_enc_forced;
use crate::wire::tag_width;
use crate::wire::valid_size_tag;
use crate::wire::size_parse_end;
use crate::wire::size_parse_ok;
use crate::wire::size_parse_val;
use crate::wire::le_val;
use crate::wire::lemma_le_bytes_len;
use crate::wire::lemma_le_val_bound;
use crate::wire::lemma_pow256_values;
use crate::wire::pow256;
use crate::wire::uint_of_bytes;
use crate::wire::uint_to_bytes;

verus! {

/// The stateful transfer capability. It owns the byte stream it works on:
/// a growing output buffer when writing, or a fixed input buffer and a read
/// position when reading.
pub struct Reflector {
    direction: Direction,
    endianness: Endianness,
    buf: Vec<u8>,
    pos: usize,
}

impl Reflector {
    /// The direction this reflector was bound to at construction.
    pub closed spec fn direction(self) -> Direction {
        self.direction
    }

    /// The byte order this reflector was bound to at construction.
    pub closed spec fn endianness(self) -> Endianness {
        self.endianness
    }

    /// The stream bytes: everything written so far, or the whole input.
    pub closed spec fn bytes(self) -> Seq<u8> {
        self.buf@
    }

    /// How many input bytes have been consumed. Zero while writing.
    pub closed spec fn position(self) -> nat {
        self.pos as nat
    }

    pub open spec fn is_writing(self) -> bool {
        self.direction() is Writing
    }

    pub open spec fn is_reading(self) -> bool {
        self.direction() is Reading
    }

    /// Well-formedness: the read position never passes the end of the input,
    /// and a writer has no read position.
    pub open spec fn wf(self) -> bool {
        &&& self.position() <= self.bytes().len()
        &&& self.is_writing() ==> self.position() == 0
    }

    /// A writing reflector with an empty output buffer.
    pub fn writer(endianness: Endianness) -> (r: Reflector)
        ensures
            r.wf(),
            r.is_writing(),
            r.endianness() == endianness,
            r.bytes() == Seq::<u8>::empty(),
    {
        Reflector { direction: Direction::Writing, endianness, buf: Vec::new(), pos: 0 }
    }

    /// A reading reflector over a copy of the given input, starting at its
    /// first byte. Input past what a traversal consumes is simply ignored.
    pub fn reader(input: &[u8], endianness: Endianness) -> (r: Reflector)
        ensures
            r.wf(),
            r.is_reading(),
            r.endianness() == endianness,
            r.bytes() == input@,
            r.position() == 0,
    {
        Reflector {
            direction: Direction::Reading,
            endianness,
            buf: vstd::slice::slice_to_vec(input),
            pos: 0,
        }
    }

    /// Consumes the reflector and hands back its stream bytes: the complete
    /// output of a write traversal, or the input a read traversal was given.
    pub fn into_bytes(self) -> (v: Vec<u8>)
        ensures
            v@ == self.bytes(),
    {
        self.buf
    }

    /// The direction this reflector was bound to at construction.
    pub fn get_direction(&self) -> (d: Direction)
        ensures
            d == self.direction(),
    {
        self.direction
    }

    /// The byte order this reflector was bound to at construction.
    pub fn get_endianness(&self) -> (e: Endianness)
        ensures
            e == self.endianness(),
    {
        self.endianness
    }

    /// How many input bytes a read traversal has consumed so far.
    pub fn bytes_consumed(&self) -> (n: usize)
        ensures
            n == self.position(),
    {
        self.pos
    }

    /// Appends the `w`-byte encoding of `v` in the bound byte order.
    pub(crate) fn write_uint(&mut self, v: u64, w: usize)
        requires
            old(self).wf(),
            old(self).is_writing(),
            1 <= w <= 8,
            (v as nat) < pow256(w as nat),
        ensures
            final(self).wf(),
            final(self).direction() == old(self).direction(),
            final(self).endianness() == old(self).endianness(),
            final(self).bytes() == old(self).bytes() + uint_to_bytes(
                old(self).endianness(),
                v as nat,
                w as nat,
            ),
    {
        let ghost e = self.endianness;
        let mut tmp: Vec<u8> = Vec::new();
        let mut x: u64 = v;
        let mut i: usize = 0;
        while i < w
            invariant
                i <= w,
                tmp@.len() == i,
                le_bytes(v as nat, w as nat) == tmp@ + le_bytes(x as nat, (w - i) as nat),
            decreases w - i,
        {
            proof {
                assert(le_bytes(x as nat, (w - i) as nat) == seq![(x % 256) as u8] + le_bytes(
                    (x / 256) as nat,
                    (w - i - 1) as nat,
                ));
                assert(tmp@.push((x % 256) as u8) + le_bytes((x / 256) as nat, (w - i - 1) as nat)
                    =~= tmp@ + le_bytes(x as nat, (w - i) as nat));
            }
            tmp.push((x % 256) as u8);
            x = x / 256;
            i = i + 1;
        }
        proof {
            assert(le_bytes(x as nat, 0) =~= Seq::<u8>::empty());
            assert(tmp@ =~= tmp@ + le_bytes(x as nat, 0));
            assert(tmp@ == le_bytes(v as nat, w as nat));
            lemma_le_bytes_len(v as nat, w as nat);
        }
        match self.endianness {
            Endianness::LittleEndian => {
                let mut j: usize = 0;
                while j < w
                    invariant
                        j <= w,
                        w == tmp@.len(),
                        tmp@ == le_bytes(v as nat, w as nat),
                        self.direction == old(self).direction,
                        self.endianness == old(self).endianness,
                        self.endianness is LittleEndian,
                        self.pos == old(self).pos,
                        self.buf@ == old(self).buf@ + tmp@.subrange(0, j as int),
                    decreases w - j,
                {
                    proof {
                        assert(tmp@.subrange(0, j as int).push(tmp@[j as int]) =~= tmp@.subrange(
                            0,
                            j + 1,
                        ));
                    }
                    self.buf.push(tmp[j]);
                    j = j + 1;
                }
                proof {
                    assert(tmp@.subrange(0, w as int) =~= tmp@);
                }
            },
            Endianness::BigEndian => {
                let ghost rev = tmp@.reverse();
                let mut j: usize = 0;
                while j < w
                    invariant
                        j <= w,
                        w == tmp@.len(),
                        tmp@ == le_bytes(v as nat, w as nat),
                        rev == tmp@.reverse(),
                        self.direction == old(self).direction,
                        self.endianness == old(self).endianness,
                        self.endianness is BigEndian,
                        self.pos == old(self).pos,
                        self.buf@ == old(self).buf@ + rev.subrange(0, j as int),
                    decreases w - j,
                {
                    proof {
                        assert(rev[j as int] == tmp@[w - 1 - j]);
                        assert(rev.subrange(0, j as int).push(rev[j as int]) =~= rev.subrange(
                            0,
                            j + 1,
                        ));
                    }
                    self.buf.push(tmp[w - 1 - j]);
                    j = j + 1;
                }
                proof {
                    assert(rev.subrange(0, w as int) =~= rev);
                }
            },
        }
    }

    /// Reads the next `w` bytes as an unsigned value in the bound byte order.
    /// Succeeds exactly when `w` bytes remain; a failed read consumes nothing.
    pub(crate) fn read_uint(&mut self, w: usize) -> (res: Result<u64, CodecError>)
        requires
            old(self).wf(),
            old(self).is_reading(),
            1 <= w <= 8,
        ensures
            final(self).wf(),
            final(self).direction() == old(self).direction(),
            final(self).endianness() == old(self).endianness(),
            final(self).bytes() == old(self).bytes(),
            res is Ok <==> old(self).position() + w <= old(self).bytes().len(),
            res is Ok ==> {
                &&& final(self).position() == old(self).position() + w
                &&& (res->Ok_0 as nat) == uint_of_bytes(
                    old(self).endianness(),
                    old(self).bytes().subrange(
                        old(self).position() as int,
                        old(self).position() + w,
                    ),
                )
                &&& (res->Ok_0 as nat) < pow256(w as nat)
            },
            res is Err ==> {
                &&& res == Err::<u64, CodecError>(CodecError::ShortRead)
                &&& final(self).position() == old(self).position()
            },
    {
        if self.buf.len() - self.pos < w {
            return Err(CodecError::ShortRead);
        }
        let ghost s = self.buf@.subrange(self.pos as int, self.pos + w);
        proof {
            lemma_pow256_values();
        }
        let mut x: u64 = 0;
        match self.endianness {
            Endianness::LittleEndian => {
                let mut i: usize = w;
                while i > 0
                    invariant
                        i <= w <= 8,
                        self == old(self),
                        self.pos + w <= self.buf@.len(),
                        self.buf@.len() <= usize::MAX,
                        s == self.buf@.subrange(self.pos as int, self.pos + w),
                        (x as nat) == le_val(s.skip(i as int)),
                        (x as nat) < pow256((w - i) as nat),
                    decreases i,
                {
                    proof {
                        crate::wire::lemma_le_val_step(s, i - 1);
                        crate::wire::lemma_pow256_le((w - i) as nat, 7);
                        lemma_pow256_values();
                    }
                    i = i - 1;
                    x = x * 256 + (self.buf[self.pos + i] as u64);
                    proof {
                        lemma_le_val_bound(s.skip(i as int));
                        assert(s.skip(i as int).len() == (w - i) as nat);
                    }
                }
                proof {
                    assert(s.skip(0) =~= s);
                }
            },
            Endianness::BigEndian => {
                let mut i: usize = 0;
                while i < w
                    invariant
                        i <= w <= 8,
                        self == old(self),
                        self.pos + w <= self.buf@.len(),
                        self.buf@.len() <= usize::MAX,
                        s == self.buf@.subrange(self.pos as int, self.pos + w),
                        (x as nat) == le_val(s.take(i as int).reverse()),
                        (x as nat) < pow256(i as nat),
                    decreases w - i,
                {
                    proof {
                        crate::wire::lemma_be_val_step(s, i as int);
                        crate::wire::lemma_pow256_le(i as nat, 7);
                        lemma_pow256_values();
                    }
                    x = x * 256 + (self.buf[self.pos + i] as u64);
                    i = i + 1;
                    proof {
                        lemma_le_val_bound(s.take(i as int).reverse());
                        assert(s.take(i as int).reverse().len() == i as nat);
                    }
                }
                proof {
                    assert(s.take(w as int) =~= s);
                }
            },
        }
        proof {
            lemma_le_val_bound(s);
            lemma_le_val_bound(s.reverse());
        }
        self.pos = self.pos + w;
        Ok(x)
    }

    /// The self-describing size decode: one width-tag byte, then that many
    /// length bytes. Fails with `CorruptSizeTag` on a tag outside {1,2,4,8},
    /// and with `ShortRead` when the input ends early or the decoded length
    /// cannot be held in memory on this machine.
    fn read_size(&mut self) -> (res: Result<usize, CodecError>)
        requires
            old(self).wf(),
            old(self).is_reading(),
        ensures
            final(self).wf(),
            final(self).direction() == old(self).direction(),
            final(self).endianness() == old(self).endianness(),
            final(self).bytes() == old(self).bytes(),
            final(self).position() >= old(self).position(),
            res is Ok <==> {
                &&& old(self).position() < old(self).bytes().len()
                &&& valid_size_tag(old(self).bytes()[old(self).position() as int])
                &&& old(self).position() + 1 + tag_width(
                    old(self).bytes()[old(self).position() as int],
                ) <= old(self).bytes().len()
                &&& uint_of_bytes(
                    old(self).endianness(),
                    old(self).bytes().subrange(
                        old(self).position() + 1 as int,
                        old(self).position() + 1 + tag_width(
                            old(self).bytes()[old(self).position() as int],
                        ) as int,
                    ),
                ) <= usize::MAX
            },
            res is Ok ==> {
                &&& final(self).position() == old(self).position() + 1 + tag_width(
                    old(self).bytes()[old(self).position() as int],
                )
                &&& (res->Ok_0 as nat) == uint_of_bytes(
                    old(self).endianness(),
                    old(self).bytes().subrange(
                        old(self).position() + 1 as int,
                        old(self).position() + 1 + tag_width(
                            old(self).bytes()[old(self).position() as int],
                        ) as int,
                    ),
                )
            },
            res is Err ==> res->Err_0 == (if old(self).position() < old(self).bytes().len()
                && !valid_size_tag(old(self).bytes()[old(self).position() as int]) {
                CodecError::CorruptSizeTag
            } else {
                CodecError::ShortRead
            }),
    {
        let ghost p = old(self).position() as int;
        let tag_word = match self.read_uint(1) {
            Ok(x) => x,
            Err(er) => {
                return Err(er);
            },
        };
        proof {
            crate::wire::lemma_single_byte_val(
                old(self).endianness(),
                old(self).bytes().subrange(p, p + 1),
            );
        }
        let tag = tag_word as u8;
        let w: usize = if tag == 1 {
            1
        } else if tag == 2 {
            2
        } else if tag == 4 {
            4
        } else if tag == 8 {
            8
        } else {
            return Err(CodecError::CorruptSizeTag);
        };
        let v = match self.read_uint(w) {
            Ok(x) => x,
            Err(er) => {
                return Err(er);
            },
        };
        if v > (usize::MAX as u64) {
            return Err(CodecError::ShortRead);
        }
        Ok(v as usize)
    }

    /// Transfers a collection length with the automatic (smallest-fitting)
    /// width. Writing appends the self-describing size encoding of the length
    /// and never fails; reading runs the self-describing size decode.
    pub fn reflect_size(&mut self, size: &mut usize) -> (res: Result<(), CodecError>)
        requires
            old(self).wf(),
        ensures
            final(self).wf(),
            final(self).direction() == old(self).direction(),
            final(self).endianness() == old(self).endianness(),
            old(self).is_writing() ==> {
                &&& res is Ok
                &&& final(self).bytes() == old(self).bytes() + size_enc(
                    old(self).endianness(),
                    *old(size) as nat,
                )
                &&& *final(size) == *old(size)
            },
            old(self).is_reading() ==> size_read_post(
                *old(self),
                *final(self),
                *old(size),
                *final(size),
                res,
            ),
    {
        match self.direction {
            Direction::Writing => {
                proof {
                    lemma_pow256_values();
                }
                let n = *size;
                let tag: u8 = if n <= 0xFF {
                    1
                } else if n <= 0xFFFF {
                    2
                } else if n <= 0xFFFFFFFF {
                    4
                } else {
                    8
                };
                self.write_size_with_tag(n, tag);
                proof {
                    assert(old(self).bytes() + seq![tag] + uint_to_bytes(
                        old(self).endianness(),
                        n as nat,
                        tag_width(tag),
                    ) =~= old(self).bytes() + size_enc(old(self).endianness(), n as nat));
                }
                Ok(())
            },
            Direction::Reading => {
                match self.read_size() {
                    Ok(n) => {
                        *size = n;
                        Ok(())
                    },
                    Err(er) => Err(er),
                }
            },
        }
    }

    /// Transfers a collection length at the width the policy forces. The
    /// caller must guarantee a written length fits that width; reading is
    /// driven by the width tag found on the wire, exactly as the automatic
    /// decode is.
    pub fn reflect_size_ext(&mut self, size: &mut usize, policy: SizePolicy) -> (res: Result<
        (),
        CodecError,
    >)
        requires
            old(self).wf(),
            old(self).is_writing() ==> (*old(size) as nat) < pow256(tag_width(policy_tag(policy))),
        ensures
            final(self).wf(),
            final(self).direction() == old(self).direction(),
            final(self).endianness() == old(self).endianness(),
            old(self).is_writing() ==> {
                &&& res is Ok
                &&& final(self).bytes() == old(self).bytes() + size_enc_forced(
                    old(self).endianness(),
                    policy,
                    *old(size) as nat,
                )
                &&& *final(size) == *old(size)
            },
            old(self).is_reading() ==> size_read_post(
                *old(self),
                *final(self),
                *old(size),
                *final(size),
                res,
            ),
    {
        match self.direction {
            Direction::Writing => {
                let n = *size;
                let tag: u8 = match policy {
                    SizePolicy::U8 => 1,
                    SizePolicy::U16 => 2,
                    SizePolicy::U32 => 4,
                    SizePolicy::U64 => 8,
                };
                self.write_size_with_tag(n, tag);
                proof {
                    assert(old(self).bytes() + seq![tag] + uint_to_bytes(
                        old(self).endianness(),
                        n as nat,
                        tag_width(tag),
                    ) =~= old(self).bytes() + size_enc_forced(
                        old(self).endianness(),
                        policy,
                        n as nat,
                    ));
                }
                Ok(())
            },
            Direction::Reading => {
                match self.read_size() {
                    Ok(n) => {
                        *size = n;
                        Ok(())
                    },
                    Err(er) => Err(er),
                }
            },
        }
    }

    /// Appends one width-tag byte and then the length in that many bytes.
    fn write_size_with_tag(&mut self, n: usize, tag: u8)
        requires
            old(self).wf(),
            old(self).is_writing(),
            valid_size_tag(tag),
            (n as nat) < pow256(tag_width(tag)),
        ensures
            final(self).wf(),
            final(self).direction() == old(self).direction(),
            final(self).endianness() == old(self).endianness(),
            final(self).bytes() == old(self).bytes() + seq![tag] + uint_to_bytes(
                old(self).endianness(),
                n as nat,
                tag_width(tag),
            ),
    {
        proof {
            lemma_pow256_values();
            crate::wire::lemma_single_byte_enc(old(self).endianness(), tag);
        }
        self.write_uint(tag as u64, 1);
        let w: usize = if tag == 1 {
            1
        } else if tag == 2 {
            2
        } else if tag == 4 {
            4
        } else {
            8
        };
        self.write_uint(n as u64, w);
        proof {
            assert(old(self).bytes() + seq![tag] + uint_to_bytes(
                old(self).endianness(),
                n as nat,
                tag_width(tag),
            ) =~= old(self).bytes() + uint_to_bytes(old(self).endianness(), tag as nat, 1)
                + uint_to_bytes(old(self).endianness(), n as nat, tag_width(tag)));
        }
    }
}

/// What a size transfer does in the reading direction: the self-describing
/// decode succeeds exactly when a valid width tag and that many length bytes
/// are present and the decoded length fits the machine's length type, and the
/// two failure shapes are told apart by the tag byte.
pub open spec fn size_read_post(
    rp: Reflector,
    rq: Reflector,
    np: usize,
    nq: usize,
    res: Result<(), CodecError>,
) -> bool {
    &&& rq.bytes() == rp.bytes()
    &&& (res is Ok <==> size_parse_ok(rp.endianness(), rp.bytes(), rp.position()))
    &&& (res is Ok ==> {
        &&& rq.position() == size_parse_end(rp.bytes(), rp.position())
        &&& (nq as nat) == size_parse_val(rp.endianness(), rp.bytes(), rp.position())
    })
    &&& rp.position() <= rq.position()
    &&& (res is Err ==> {
        &&& res->Err_0 == (if rp.position() < rp.bytes().len() && !valid_size_tag(
            rp.bytes()[rp.position() as int],
        ) {
            CodecError::CorruptSizeTag
        } else {
            CodecError::ShortRead
        })
        &&& nq == np
    })
}

} // verus!
