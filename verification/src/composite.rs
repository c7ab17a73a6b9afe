//! The composite traversal protocols. A plain composite enumerates its fields
//! in a fixed order against the reflector; a tagged composite first transfers
//! a fixed-width discriminant and then the fields of the variant that
//! discriminant names. Both drive serialization and deserialization from the
//! single field-sequence definition.

use vstd::prelude::*;

use crate::arrays::array_size_enc;
use crate::primitive::Primitive;
use crate::reflector::Reflector;
use crate::types::CodecError;
use crate::types::Direction;
use crate::types::Endianness;
use crate::types::SizePolicy;
use crate::wire::lemma_uint_to_bytes_len;
use crate::wire::policy_tag;
use crate::wire::pow256;
use crate::wire::size_parse_end;
use crate::wire::size_parse_ok;
use crate::wire::size_parse_val;
use crate::wire::tag_width;
use crate::wire::uint_to_bytes;

verus! {

/// What any traversal step leaves intact: the reflector keeps its direction
/// and byte order and stays well-formed; a writer only ever appends, and a
/// reader never changes the input and never moves backwards.
pub open spec fn reflect_frame(rp: Reflector, rq: Reflector) -> bool {
    &&& rq.wf()
    &&& rq.direction() == rp.direction()
    &&& rq.endianness() == rp.endianness()
    &&& rp.is_writing() ==> rp.bytes().is_prefix_of(rq.bytes())
    &&& rp.is_reading() ==> rq.bytes() == rp.bytes() && rp.position() <= rq.position()
}

/// A value type with a fixed, order-significant field sequence. Implementors
/// write `reflect` once; the same definition then serves serialization and
/// deserialization, so the two can never fall out of step.
pub trait Reflectable: Sized {
    /// The canonical empty value a read traversal starts from.
    fn blank() -> (r: Self);

    /// Passes each field through the reflector, in the type's fixed order.
    /// A write pass may not change the value; a failure partway through a
    /// read pass may leave the value partially populated.
    fn reflect(&mut self, r: &mut Reflector) -> (res: Result<(), CodecError>)
        requires
            old(r).wf(),
        ensures
            reflect_frame(*old(r), *final(r)),
            old(r).is_writing() ==> *final(self) == *old(self),
    ;

    /// Appends this value's encoding under the chosen byte order to the
    /// caller's output, leaving any bytes already there in place. The value
    /// itself is not changed. On failure the output may hold a partial
    /// encoding.
    fn serialize(&mut self, stream: &mut Vec<u8>, endianness: Endianness) -> (res: Result<
        (),
        CodecError,
    >)
        ensures
            *final(self) == *old(self),
            old(stream)@.is_prefix_of(final(stream)@),
    {
        let mut r = Reflector::writer(endianness);
        let res = self.reflect(&mut r);
        let mut out = r.into_bytes();
        stream.append(&mut out);
        proof {
            assert(old(stream)@.is_prefix_of(final(stream)@));
        }
        res
    }

    /// Builds a value from the start of the input under the chosen byte
    /// order. Input past what the traversal consumes is ignored; input that
    /// ends before the traversal is done fails the whole call.
    fn deserialize(stream: &[u8], endianness: Endianness) -> (res: Result<Self, CodecError>) {
        let mut value = Self::blank();
        let mut r = Reflector::reader(stream, endianness);
        match value.reflect(&mut r) {
            Ok(()) => Ok(value),
            Err(er) => Err(er),
        }
    }
}

/// A composite whose field set depends on a leading discriminant: the
/// discriminant travels first, at a fixed per-type width, and then exactly
/// the fields of the variant it names.
pub trait TaggedReflectable: Sized {
    /// The width of the discriminant on the wire, fixed per type: what
    /// `get_size_policy` returns, lifted to specification level. A verified
    /// implementor overrides this to mirror its `get_size_policy`.
    open spec fn size_policy_spec() -> SizePolicy {
        SizePolicy::U8
    }

    /// The discriminant of this value: what `get_tag` returns, lifted to
    /// specification level. A verified implementor overrides this to mirror
    /// its `get_tag`.
    open spec fn tag_spec(&self) -> u64 {
        0
    }

    /// The canonical empty value a read traversal starts from.
    fn blank() -> (r: Self);

    /// The width of the discriminant on the wire, fixed per type.
    fn get_size_policy() -> (p: SizePolicy)
        ensures
            p == Self::size_policy_spec(),
    ;

    /// The discriminant of this value.
    fn get_tag(&self) -> (t: u64)
        ensures
            t == self.tag_spec(),
    ;

    /// Transfers exactly the fields of the variant `tag` names. A tag that
    /// names no variant is an `UnknownTag` error; the protocol never guesses.
    fn reflect_tagged(&mut self, tag: u64, r: &mut Reflector) -> (res: Result<(), CodecError>)
        requires
            old(r).wf(),
        ensures
            reflect_frame(*old(r), *final(r)),
            old(r).is_writing() ==> *final(self) == *old(self),
    ;

    /// Runs the two-phase protocol once: the discriminant first, narrowed to
    /// the type's fixed width, then the tag-directed fields. When writing,
    /// the discriminant's encoding always leads whatever the fields append.
    fn reflect(&mut self, r: &mut Reflector) -> (res: Result<(), CodecError>)
        requires
            old(r).wf(),
        ensures
            reflect_frame(*old(r), *final(r)),
            old(r).is_writing() ==> *final(self) == *old(self),
            old(r).is_writing() ==> {
                let w = tag_width(policy_tag(Self::size_policy_spec()));
                let d = (old(self).tag_spec() as nat) % pow256(w);
                &&& final(r).bytes().len() >= old(r).bytes().len() + w
                &&& final(r).bytes().subrange(
                    old(r).bytes().len() as int,
                    (old(r).bytes().len() + w) as int,
                ) == uint_to_bytes(old(r).endianness(), d, w)
            },
    {
        let ghost e = old(r).endianness();
        let ghost b0 = old(r).bytes();
        let ghost w = tag_width(policy_tag(Self::size_policy_spec()));
        let ghost d = (old(self).tag_spec() as nat) % pow256(w);
        let ghost enc_d = uint_to_bytes(e, d, w);
        proof {
            crate::wire::lemma_pow256_values();
        }
        let t = self.get_tag();
        let tag_value: u64 = match Self::get_size_policy() {
            SizePolicy::U8 => {
                let mut v: u8 = (t % 0x100) as u8;
                match v.transfer(r) {
                    Ok(()) => {},
                    Err(er) => {
                        return Err(er);
                    },
                }
                proof {
                    if old(r).is_writing() {
                        assert(r.bytes() == b0 + enc_d);
                    }
                }
                v as u64
            },
            SizePolicy::U16 => {
                let mut v: u16 = (t % 0x10000) as u16;
                match v.transfer(r) {
                    Ok(()) => {},
                    Err(er) => {
                        return Err(er);
                    },
                }
                proof {
                    if old(r).is_writing() {
                        assert(r.bytes() == b0 + enc_d);
                    }
                }
                v as u64
            },
            SizePolicy::U32 => {
                let mut v: u32 = (t % 0x100000000) as u32;
                match v.transfer(r) {
                    Ok(()) => {},
                    Err(er) => {
                        return Err(er);
                    },
                }
                proof {
                    if old(r).is_writing() {
                        assert(r.bytes() == b0 + enc_d);
                    }
                }
                v as u64
            },
            SizePolicy::U64 => {
                let mut v: u64 = t;
                match v.transfer(r) {
                    Ok(()) => {},
                    Err(er) => {
                        return Err(er);
                    },
                }
                proof {
                    if old(r).is_writing() {
                        assert((t as nat) % pow256(8) == t as nat);
                        assert(r.bytes() == b0 + enc_d);
                    }
                }
                v
            },
        };
        proof {
            if old(r).is_writing() {
                assert(r.bytes() == b0 + enc_d);
            }
        }
        let ghost b1 = b0 + enc_d;
        let res = self.reflect_tagged(tag_value, r);
        proof {
            if old(r).is_writing() {
                lemma_uint_to_bytes_len(e, d, w);
                assert(b1.len() == b0.len() + w);
                assert(b1.is_prefix_of(r.bytes()));
                assert(b1 == r.bytes().subrange(0, b1.len() as int));
                assert forall|j: int| 0 <= j < w implies r.bytes()[b0.len() + j] == enc_d[j] by {
                    assert(b1[b0.len() + j] == enc_d[j]);
                    assert(r.bytes().subrange(0, b1.len() as int)[b0.len() + j] == r.bytes()[b0.len()
                        + j]);
                }
                assert(r.bytes().subrange(b0.len() as int, (b0.len() + w) as int) =~= enc_d);
            }
        }
        res
    }

    /// Appends this value's encoding under the chosen byte order to the
    /// caller's output, exactly as `Reflectable::serialize` does.
    fn serialize(&mut self, stream: &mut Vec<u8>, endianness: Endianness) -> (res: Result<
        (),
        CodecError,
    >)
        ensures
            *final(self) == *old(self),
            old(stream)@.is_prefix_of(final(stream)@),
    {
        let mut r = Reflector::writer(endianness);
        let res = self.reflect(&mut r);
        let mut out = r.into_bytes();
        stream.append(&mut out);
        proof {
            assert(old(stream)@.is_prefix_of(final(stream)@));
        }
        res
    }

    /// Builds a value from the start of the input under the chosen byte
    /// order, exactly as `Reflectable::deserialize` does.
    fn deserialize(stream: &[u8], endianness: Endianness) -> (res: Result<Self, CodecError>) {
        let mut value = Self::blank();
        let mut r = Reflector::reader(stream, endianness);
        match value.reflect(&mut r) {
            Ok(()) => Ok(value),
            Err(er) => Err(er),
        }
    }
}

/// Prefix-of is transitive: what one traversal step wrote stays in place
/// through every later step.
proof fn lemma_prefix_trans(a: Seq<u8>, b: Seq<u8>, c: Seq<u8>)
    requires
        a.is_prefix_of(b),
        b.is_prefix_of(c),
    ensures
        a.is_prefix_of(c),
{
    assert forall|j: int| 0 <= j < a.len() implies c[j] == a[j] by {
        assert(b.subrange(0, a.len() as int)[j] == b[j]);
        assert(c.subrange(0, b.len() as int)[j] == c[j]);
    }
    assert(a =~= c.subrange(0, a.len() as int));
}

/// What transferring a length-prefixed composite collection does to the
/// collection's length and the stream. Writing leaves the collection alone
/// and puts the size field for its length right at the front of what it
/// appends; a successful read leaves the collection holding exactly as many
/// elements as the decoded length said. A read whose size field does not
/// parse fails with the size codec's own error.
pub open spec fn composite_array_post(
    rp: Reflector,
    rq: Reflector,
    np: nat,
    nq: nat,
    forced: Option<SizePolicy>,
    res: Result<(), CodecError>,
) -> bool {
    let e = rp.endianness();
    let s = rp.bytes();
    let p = rp.position();
    let lenc = array_size_enc(e, forced, np);
    &&& rp.is_writing() ==> {
        &&& nq == np
        &&& rq.bytes().len() >= s.len() + lenc.len()
        &&& rq.bytes().subrange(s.len() as int, (s.len() + lenc.len()) as int) == lenc
    }
    &&& rp.is_reading() ==> {
        &&& (res is Ok ==> {
            &&& size_parse_ok(e, s, p)
            &&& nq == size_parse_val(e, s, p)
            &&& rq.position() >= size_parse_end(s, p)
        })
        &&& (!size_parse_ok(e, s, p) ==> res is Err && res->Err_0 == (if p < s.len()
            && !crate::wire::valid_size_tag(s[p as int]) {
            CodecError::CorruptSizeTag
        } else {
            CodecError::ShortRead
        }))
    }
}

impl Reflector {
    /// Delegates to the composite's own field sequence, with this reflector
    /// as the active transfer capability.
    pub fn reflect_composite<R: Reflectable>(&mut self, composite: &mut R) -> (res: Result<
        (),
        CodecError,
    >)
        requires
            old(self).wf(),
        ensures
            reflect_frame(*old(self), *final(self)),
            old(self).is_writing() ==> *final(composite) == *old(composite),
    {
        composite.reflect(self)
    }

    /// Runs a tagged composite's two-phase protocol, with this reflector as
    /// the active transfer capability.
    pub fn reflect_tagged_composite<R: TaggedReflectable>(&mut self, composite: &mut R) -> (res:
        Result<(), CodecError>)
        requires
            old(self).wf(),
        ensures
            reflect_frame(*old(self), *final(self)),
            old(self).is_writing() ==> *final(composite) == *old(composite),
    {
        composite.reflect(self)
    }

    /// The shared body of the composite-collection operations: the length
    /// first, then each element's own field sequence, in index order.
    #[verifier::loop_isolation(false)]
    pub(crate) fn reflect_composite_array<R: Reflectable>(
        &mut self,
        data: &mut Vec<R>,
        forced: Option<SizePolicy>,
    ) -> (res: Result<(), CodecError>)
        requires
            old(self).wf(),
            old(self).is_writing() && forced is Some ==> (old(data)@.len() as nat) < pow256(
                tag_width(policy_tag(forced->0)),
            ),
        ensures
            reflect_frame(*old(self), *final(self)),
            old(self).is_writing() ==> final(data)@ == old(data)@,
            composite_array_post(
                *old(self),
                *final(self),
                old(data)@.len(),
                final(data)@.len(),
                forced,
                res,
            ),
    {
        let ghost e = old(self).endianness();
        let ghost s = old(self).bytes();
        let ghost p = old(self).position();
        let ghost lenc = array_size_enc(e, forced, old(data)@.len() as nat);
        let mut n: usize = data.len();
        let size_res = match forced {
            None => self.reflect_size(&mut n),
            Some(pol) => self.reflect_size_ext(&mut n, pol),
        };
        match size_res {
            Ok(()) => {},
            Err(er) => {
                return Err(er);
            },
        }
        let ghost b1 = self.bytes();
        let ghost q = self.position();
        match self.get_direction() {
            Direction::Writing => {
                let len = data.len();
                let mut i: usize = 0;
                while i < len
                    invariant
                        i <= len,
                        len == data@.len(),
                        data@ == old(data)@,
                        self.wf(),
                        self.is_writing(),
                        self.endianness() == e,
                        self.direction() == old(self).direction(),
                        b1.is_prefix_of(self.bytes()),
                    decreases len - i,
                {
                    let ghost before = self.bytes();
                    let res_i = data[i].reflect(self);
                    proof {
                        lemma_prefix_trans(b1, before, self.bytes());
                        assert(data@.update(i as int, data@[i as int]) =~= data@);
                    }
                    match res_i {
                        Ok(()) => {},
                        Err(er) => {
                            proof {
                                extract_written_prefix(s, b1, self.bytes(), lenc);
                            }
                            return Err(er);
                        },
                    }
                    i = i + 1;
                }
                proof {
                    extract_written_prefix(s, b1, self.bytes(), lenc);
                }
                Ok(())
            },
            Direction::Reading => {
                while data.len() > n
                    decreases data@.len(),
                {
                    data.pop();
                }
                while data.len() < n
                    invariant
                        data@.len() <= n,
                    decreases n - data@.len(),
                {
                    data.push(R::blank());
                }
                let mut i: usize = 0;
                while i < n
                    invariant
                        i <= n,
                        n == data@.len(),
                        self.wf(),
                        self.is_reading(),
                        self.endianness() == e,
                        self.direction() == old(self).direction(),
                        self.bytes() == s,
                        self.position() >= q,
                    decreases n - i,
                {
                    let res_i = data[i].reflect(self);
                    match res_i {
                        Ok(()) => {},
                        Err(er) => {
                            return Err(er);
                        },
                    }
                    i = i + 1;
                }
                Ok(())
            },
        }
    }

    /// The shared body of the tagged-composite-collection operations.
    #[verifier::loop_isolation(false)]
    pub(crate) fn reflect_tagged_composite_array<R: TaggedReflectable>(
        &mut self,
        data: &mut Vec<R>,
        forced: Option<SizePolicy>,
    ) -> (res: Result<(), CodecError>)
        requires
            old(self).wf(),
            old(self).is_writing() && forced is Some ==> (old(data)@.len() as nat) < pow256(
                tag_width(policy_tag(forced->0)),
            ),
        ensures
            reflect_frame(*old(self), *final(self)),
            old(self).is_writing() ==> final(data)@ == old(data)@,
            composite_array_post(
                *old(self),
                *final(self),
                old(data)@.len(),
                final(data)@.len(),
                forced,
                res,
            ),
    {
        let ghost e = old(self).endianness();
        let ghost s = old(self).bytes();
        let ghost p = old(self).position();
        let ghost lenc = array_size_enc(e, forced, old(data)@.len() as nat);
        let mut n: usize = data.len();
        let size_res = match forced {
            None => self.reflect_size(&mut n),
            Some(pol) => self.reflect_size_ext(&mut n, pol),
        };
        match size_res {
            Ok(()) => {},
            Err(er) => {
                return Err(er);
            },
        }
        let ghost b1 = self.bytes();
        let ghost q = self.position();
        match self.get_direction() {
            Direction::Writing => {
                let len = data.len();
                let mut i: usize = 0;
                while i < len
                    invariant
                        i <= len,
                        len == data@.len(),
                        data@ == old(data)@,
                        self.wf(),
                        self.is_writing(),
                        self.endianness() == e,
                        self.direction() == old(self).direction(),
                        b1.is_prefix_of(self.bytes()),
                    decreases len - i,
                {
                    let ghost before = self.bytes();
                    let res_i = data[i].reflect(self);
                    proof {
                        lemma_prefix_trans(b1, before, self.bytes());
                        assert(data@.update(i as int, data@[i as int]) =~= data@);
                    }
                    match res_i {
                        Ok(()) => {},
                        Err(er) => {
                            proof {
                                extract_written_prefix(s, b1, self.bytes(), lenc);
                            }
                            return Err(er);
                        },
                    }
                    i = i + 1;
                }
                proof {
                    extract_written_prefix(s, b1, self.bytes(), lenc);
                }
                Ok(())
            },
            Direction::Reading => {
                while data.len() > n
                    decreases data@.len(),
                {
                    data.pop();
                }
                while data.len() < n
                    invariant
                        data@.len() <= n,
                    decreases n - data@.len(),
                {
                    data.push(R::blank());
                }
                let mut i: usize = 0;
                while i < n
                    invariant
                        i <= n,
                        n == data@.len(),
                        self.wf(),
                        self.is_reading(),
                        self.endianness() == e,
                        self.direction() == old(self).direction(),
                        self.bytes() == s,
                        self.position() >= q,
                    decreases n - i,
                {
                    let res_i = data[i].reflect(self);
                    match res_i {
                        Ok(()) => {},
                        Err(er) => {
                            return Err(er);
                        },
                    }
                    i = i + 1;
                }
                Ok(())
            },
        }
    }

    /// Transfers a length-prefixed collection of composites with the
    /// automatic (smallest-fitting) length width.
    pub fn reflect_array_of_composites<R: Reflectable>(&mut self, data: &mut Vec<R>) -> (res:
        Result<(), CodecError>)
        requires
            old(self).wf(),
        ensures
            reflect_frame(*old(self), *final(self)),
            old(self).is_writing() ==> final(data)@ == old(data)@,
            composite_array_post(
                *old(self),
                *final(self),
                old(data)@.len(),
                final(data)@.len(),
                None,
                res,
            ),
    {
        self.reflect_composite_array(data, None)
    }

    /// Transfers a length-prefixed collection of composites at the length
    /// width the policy forces.
    pub fn reflect_array_of_composites_ext<R: Reflectable>(
        &mut self,
        data: &mut Vec<R>,
        size_policy: SizePolicy,
    ) -> (res: Result<(), CodecError>)
        requires
            old(self).wf(),
            old(self).is_writing() ==> (old(data)@.len() as nat) < pow256(
                tag_width(policy_tag(size_policy)),
            ),
        ensures
            reflect_frame(*old(self), *final(self)),
            old(self).is_writing() ==> final(data)@ == old(data)@,
            composite_array_post(
                *old(self),
                *final(self),
                old(data)@.len(),
                final(data)@.len(),
                Some(size_policy),
                res,
            ),
    {
        self.reflect_composite_array(data, Some(size_policy))
    }

    /// Transfers a length-prefixed collection of tagged composites with the
    /// automatic (smallest-fitting) length width.
    pub fn reflect_array_of_tagged_composites<R: TaggedReflectable>(
        &mut self,
        data: &mut Vec<R>,
    ) -> (res: Result<(), CodecError>)
        requires
            old(self).wf(),
        ensures
            reflect_frame(*old(self), *final(self)),
            old(self).is_writing() ==> final(data)@ == old(data)@,
            composite_array_post(
                *old(self),
                *final(self),
                old(data)@.len(),
                final(data)@.len(),
                None,
                res,
            ),
    {
        self.reflect_tagged_composite_array(data, None)
    }

    /// Transfers a length-prefixed collection of tagged composites at the
    /// length width the policy forces.
    pub fn reflect_array_of_tagged_composites_ext<R: TaggedReflectable>(
        &mut self,
        data: &mut Vec<R>,
        size_policy: SizePolicy,
    ) -> (res: Result<(), CodecError>)
        requires
            old(self).wf(),
            old(self).is_writing() ==> (old(data)@.len() as nat) < pow256(
                tag_width(policy_tag(size_policy)),
            ),
        ensures
            reflect_frame(*old(self), *final(self)),
            old(self).is_writing() ==> final(data)@ == old(data)@,
            composite_array_post(
                *old(self),
                *final(self),
                old(data)@.len(),
                final(data)@.len(),
                Some(size_policy),
                res,
            ),
    {
        self.reflect_tagged_composite_array(data, Some(size_policy))
    }
}

/// From "the stream was `s`, then the size field was appended, then only
/// appends followed" it extracts the written-size clause: the size field sits
/// exactly at the old end of the stream.
proof fn extract_written_prefix(s: Seq<u8>, b1: Seq<u8>, b2: Seq<u8>, lenc: Seq<u8>)
    requires
        b1 == s + lenc,
        b1.is_prefix_of(b2),
    ensures
        b2.len() >= s.len() + lenc.len(),
        b2.subrange(s.len() as int, (s.len() + lenc.len()) as int) == lenc,
{
    assert forall|j: int| 0 <= j < lenc.len() implies b2[s.len() + j] == lenc[j] by {
        assert(b1[s.len() + j] == lenc[j]);
        assert(b2.subrange(0, b1.len() as int)[s.len() + j] == b2[s.len() + j]);
    }
    assert(b2.subrange(s.len() as int, (s.len() + lenc.len()) as int) =~= lenc);
}


} // verus!
