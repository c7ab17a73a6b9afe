//! Length-prefixed collections of primitives: a size field first (automatic
//! or forced width), then every element in index order. After a read the
//! collection holds exactly as many elements as the decoded length said;
//! after a write the encoded length is exactly the collection's length.

use vstd::prelude::*;

use crate::primitive::Primitive;
use crate::reflector::Reflector;
use crate::types::CodecError;
use crate::types::Direction;
use crate::types::Endianness;
use crate::types::SizePolicy;
use crate::wire::policy_tag;
use crate::wire::pow256;
use crate::wire::size_enc;
use crate::wire::size_enc_forced;
use crate::wire::size_parse_end;
use crate::wire::size_parse_ok;
use crate::wire::size_parse_val;
use crate::wire::tag_width;
use crate::wire::valid_size_tag;

verus! {

/// The concatenated encodings of a sequence of primitives, in index order.
pub open spec fn concat_enc<T: Primitive>(e: Endianness, s: Seq<T>) -> Seq<u8>
    decreases s.len(),
{
    if s.len() == 0 {
        Seq::empty()
    } else {
        T::enc(e, s[0]) + concat_enc(e, s.drop_first())
    }
}

pub proof fn lemma_concat_enc_push<T: Primitive>(e: Endianness, s: Seq<T>, x: T)
    ensures
        concat_enc(e, s.push(x)) == concat_enc(e, s) + T::enc(e, x),
    decreases s.len(),
{
    if s.len() == 0 {
        assert(s.push(x)[0] == x);
        assert(s.push(x).drop_first() =~= Seq::<T>::empty());
        assert(concat_enc(e, s.push(x)) == T::enc(e, x) + concat_enc(e, Seq::<T>::empty()));
        assert(T::enc(e, x) + Seq::<u8>::empty() =~= T::enc(e, x));
        assert(Seq::<u8>::empty() + T::enc(e, x) =~= T::enc(e, x));
    } else {
        assert(s.push(x).drop_first() =~= s.drop_first().push(x));
        lemma_concat_enc_push(e, s.drop_first(), x);
        assert(s.push(x)[0] == s[0]);
        assert(T::enc(e, s[0]) + (concat_enc(e, s.drop_first()) + T::enc(e, x)) =~= (T::enc(
            e,
            s[0],
        ) + concat_enc(e, s.drop_first())) + T::enc(e, x));
    }
}

/// The size field an array operation writes: self-describing by default, or
/// at the width a policy forces.
pub open spec fn array_size_enc(e: Endianness, forced: Option<SizePolicy>, n: nat) -> Seq<u8> {
    match forced {
        None => size_enc(e, n),
        Some(p) => size_enc_forced(e, p, n),
    }
}

/// What writing a length-prefixed primitive array does: it appends the size
/// field for the collection's length followed by every element's encoding in
/// index order, leaves the collection unchanged, and cannot fail.
pub open spec fn array_write_post<T: Primitive>(
    rp: Reflector,
    rq: Reflector,
    dp: Seq<T>,
    dq: Seq<T>,
    forced: Option<SizePolicy>,
    res: Result<(), CodecError>,
) -> bool {
    &&& res is Ok
    &&& rq.bytes() == rp.bytes() + array_size_enc(rp.endianness(), forced, dp.len()) + concat_enc(
        rp.endianness(),
        dp,
    )
    &&& dq == dp
}

/// What reading a length-prefixed primitive array does: it succeeds exactly
/// when a size field parses at the current position and that many elements
/// fit in the remaining input; the collection then holds exactly the decoded
/// elements, in order. A failed read reports `CorruptSizeTag` exactly when
/// the width-tag byte is present but invalid, and `ShortRead` otherwise.
pub open spec fn array_read_post<T: Primitive>(
    rp: Reflector,
    rq: Reflector,
    dq: Seq<T>,
    res: Result<(), CodecError>,
) -> bool {
    let e = rp.endianness();
    let s = rp.bytes();
    let p = rp.position();
    let n = size_parse_val(e, s, p);
    let q = size_parse_end(s, p);
    &&& rq.bytes() == s
    &&& (res is Ok <==> size_parse_ok(e, s, p) && q + n * T::width() <= s.len())
    &&& (res is Ok ==> {
        &&& dq.len() == n
        &&& rq.position() == q + n * T::width()
        &&& forall|i: int|
            0 <= i < n ==> #[trigger] dq[i] == T::dec(
                e,
                s.subrange((q + i * T::width()) as int, (q + (i + 1) * T::width()) as int),
            )
    })
    &&& (res is Err ==> res->Err_0 == (if p < s.len() && !valid_size_tag(s[p as int]) {
        CodecError::CorruptSizeTag
    } else {
        CodecError::ShortRead
    }))
}

/// Grows or shrinks a vector to exactly `n` elements, keeping the prefix it
/// already has and filling any new slots with `fill`.
fn resize_to<T: Copy>(v: &mut Vec<T>, n: usize, fill: T)
    ensures
        final(v)@.len() == n,
        forall|i: int| 0 <= i < n && i < old(v)@.len() ==> final(v)@[i] == old(v)@[i],
        forall|i: int| old(v)@.len() <= i < n ==> final(v)@[i] == fill,
{
    while v.len() > n
        invariant
            n <= v@.len() || v@.len() == old(v)@.len(),
            v@.len() <= old(v)@.len(),
            forall|i: int| 0 <= i < v@.len() ==> v@[i] == old(v)@[i],
        decreases v@.len(),
    {
        v.pop();
    }
    while v.len() < n
        invariant
            v@.len() <= n,
            n <= v@.len() || old(v)@.len() <= v@.len(),
            forall|i: int| 0 <= i < v@.len() && i < old(v)@.len() ==> v@[i] == old(v)@[i],
            forall|i: int| old(v)@.len() <= i < v@.len() ==> v@[i] == fill,
        decreases n - v@.len(),
    {
        v.push(fill);
    }
}


/// The concatenated encodings have one fixed-width slot per element: the
/// whole is `len * width` bytes, and slot `i` holds element `i`'s encoding.
pub proof fn lemma_concat_enc_slots<T: Primitive>(e: Endianness, data: Seq<T>)
    ensures
        concat_enc(e, data).len() == data.len() * T::width(),
        forall|i: int|
            0 <= i < data.len() ==> concat_enc(e, data).subrange(
                i * T::width(),
                (i + 1) * T::width(),
            ) == T::enc(e, #[trigger] data[i]),
    decreases data.len(),
{
    let w = T::width() as int;
    let c = concat_enc(e, data);
    if data.len() == 0 {
        assert(data.len() * T::width() == 0) by (nonlinear_arith)
            requires
                data.len() == 0,
        ;
    } else {
        let rest = data.drop_first();
        lemma_concat_enc_slots::<T>(e, rest);
        T::lemma_enc_len(e, data[0]);
        assert(c == T::enc(e, data[0]) + concat_enc(e, rest));
        assert(c.len() == w + rest.len() * w);
        assert(w + rest.len() * w == data.len() * w) by (nonlinear_arith)
            requires
                rest.len() + 1 == data.len(),
                w >= 0,
        ;
        assert forall|i: int|
            0 <= i < data.len() implies c.subrange(i * w, (i + 1) * w) == T::enc(
            e,
            #[trigger] data[i],
        ) by {
            if i == 0 {
                assert(i * w == 0 && (i + 1) * w == w) by (nonlinear_arith)
                    requires
                        i == 0,
                ;
                assert(c.subrange(0, w) =~= T::enc(e, data[0]));
            } else {
                assert((i - 1) * w == i * w - w) by (nonlinear_arith);
                assert(i * w == (i - 1) * w + w) by (nonlinear_arith);
                assert((i + 1) * w == i * w + w) by (nonlinear_arith);
                assert(0 <= (i - 1) * w) by (nonlinear_arith)
                    requires
                        i >= 1,
                        w >= 0,
                ;
                assert(i * w <= rest.len() * w) by (nonlinear_arith)
                    requires
                        i <= rest.len(),
                        w >= 0,
                ;
                assert(rest[i - 1] == data[i]);
                assert(concat_enc(e, rest).subrange((i - 1) * w, ((i - 1) + 1) * w) == T::enc(
                    e,
                    rest[i - 1],
                ));
                assert(c.subrange(i * w, (i + 1) * w) =~= concat_enc(e, rest).subrange(
                    (i - 1) * w,
                    ((i - 1) + 1) * w,
                ));
            }
        }
    }
}

/// The array mirror law: the byte stream a length-prefixed primitive-array
/// write produces is read back, under the array read contract, as exactly the
/// written collection — the size field parses to the collection's length and
/// every element slot decodes to the element that was written into it.
pub proof fn lemma_array_round_trip<T: Primitive>(e: Endianness, data: Seq<T>)
    requires
        data.len() <= usize::MAX,
    ensures
        ({
            let s = size_enc(e, data.len()) + concat_enc(e, data);
            let q = size_parse_end(s, 0) as int;
            &&& size_parse_ok(e, s, 0)
            &&& size_parse_val(e, s, 0) == data.len()
            &&& q + data.len() * T::width() == s.len()
            &&& forall|i: int|
                0 <= i < data.len() ==> T::dec(
                    e,
                    s.subrange(q + i * T::width(), q + (i + 1) * T::width()),
                ) == #[trigger] data[i]
        }),
{
    let n = data.len() as nat;
    let w = T::width() as int;
    let lenc = size_enc(e, n);
    let c = concat_enc(e, data);
    let s = lenc + c;
    crate::wire::lemma_pow256_values();
    crate::wire::lemma_size_enc_round_trip(e, n);
    lemma_concat_enc_slots::<T>(e, data);
    let q = lenc.len() as int;
    assert(s[0] == lenc[0]);
    assert(s.subrange(1, q) =~= lenc.skip(1));
    assert(size_parse_end(s, 0) == q);
    assert(size_parse_val(e, s, 0) == n);
    assert forall|i: int|
        0 <= i < data.len() implies T::dec(
        e,
        s.subrange(q + i * w, q + (i + 1) * w),
    ) == #[trigger] data[i] by {
        T::lemma_enc_len(e, data[i]);
        assert((i + 1) * w == i * w + w) by (nonlinear_arith);
        assert(0 <= i * w && (i + 1) * w <= data.len() * w) by (nonlinear_arith)
            requires
                0 <= i < data.len(),
                w >= 1,
        ;
        assert(s.subrange(q + i * w, q + (i + 1) * w) =~= c.subrange(i * w, (i + 1) * w));
        T::lemma_enc_dec(e, data[i]);
    }
}

impl Reflector {
    /// Transfers a length-prefixed collection of primitives: the length
    /// first (self-describing, or at the forced width), then each element in
    /// index order. A read resizes the collection to the decoded length,
    /// zero-filling fresh slots, before decoding into it.
    #[verifier::loop_isolation(false)]
    pub(crate) fn reflect_primitive_array<T: Primitive>(
        &mut self,
        data: &mut Vec<T>,
        forced: Option<SizePolicy>,
    ) -> (res: Result<(), CodecError>)
        requires
            old(self).wf(),
            old(self).is_writing() && forced is Some ==> (old(data)@.len() as nat) < pow256(
                tag_width(policy_tag(forced->0)),
            ),
        ensures
            final(self).wf(),
            final(self).direction() == old(self).direction(),
            final(self).endianness() == old(self).endianness(),
            old(self).is_writing() ==> array_write_post::<T>(
                *old(self),
                *final(self),
                old(data)@,
                final(data)@,
                forced,
                res,
            ),
            old(self).is_reading() ==> array_read_post::<T>(
                *old(self),
                *final(self),
                final(data)@,
                res,
            ),
    {
        let ghost e = old(self).endianness();
        let ghost s = old(self).bytes();
        let ghost p = old(self).position();
        let mut n: usize = data.len();
        let size_res = match forced {
            None => self.reflect_size(&mut n),
            Some(pol) => self.reflect_size_ext(&mut n, pol),
        };
        match size_res {
            Ok(()) => {},
            Err(er) => {
                return Err(er);
            },
        }
        match self.get_direction() {
            Direction::Writing => {
                let ghost b1 = self.bytes();
                let len = data.len();
                let mut i: usize = 0;
                while i < len
                    invariant
                        i <= len,
                        len == data@.len(),
                        data@ == old(data)@,
                        self.wf(),
                        self.is_writing(),
                        self.endianness() == e,
                        self.direction() == old(self).direction(),
                        self.bytes() == b1 + concat_enc(e, data@.subrange(0, i as int)),
                    decreases len - i,
                {
                    let mut x = data[i];
                    let ghost pre = data@.subrange(0, i as int);
                    match x.transfer(self) {
                        Ok(()) => {},
                        Err(er) => {
                            return Err(er);
                        },
                    }
                    data[i] = x;
                    i = i + 1;
                    proof {
                        lemma_concat_enc_push::<T>(e, pre, x);
                        assert(pre.push(x) =~= data@.subrange(0, i as int));
                        assert(data@.update(i - 1, x) =~= data@);
                        assert((b1 + concat_enc(e, pre)) + T::enc(e, x) =~= b1 + (concat_enc(
                            e,
                            pre,
                        ) + T::enc(e, x)));
                    }
                }
                proof {
                    assert(data@.subrange(0, len as int) =~= data@);
                    assert((s + array_size_enc(e, forced, len as nat)) + concat_enc(e, data@) =~= s
                        + array_size_enc(e, forced, len as nat) + concat_enc(e, data@));
                }
                Ok(())
            },
            Direction::Reading => {
                let ghost q = size_parse_end(s, p);
                let ghost w = T::width();
                proof {
                    T::lemma_enc_len(e, vstd::pervasive::arbitrary());
                }
                resize_to(data, n, T::zero());
                let mut i: usize = 0;
                while i < n
                    invariant
                        i <= n,
                        n == data@.len(),
                        (n as nat) == size_parse_val(e, s, p),
                        size_parse_ok(e, s, p),
                        q == size_parse_end(s, p),
                        w == T::width(),
                        1 <= w <= 8,
                        self.wf(),
                        self.is_reading(),
                        self.endianness() == e,
                        self.direction() == old(self).direction(),
                        self.bytes() == s,
                        self.position() == q + i * w,
                        forall|j: int|
                            0 <= j < i ==> #[trigger] data@[j] == T::dec(
                                e,
                                s.subrange((q + j * w) as int, (q + (j + 1) * w) as int),
                            ),
                    decreases n - i,
                {
                    proof {
                        assert((i + 1) * w == i * w + w) by (nonlinear_arith);
                    }
                    let mut x = data[i];
                    match x.transfer(self) {
                        Ok(()) => {},
                        Err(er) => {
                            proof {
                                vstd::arithmetic::mul::lemma_mul_inequality(
                                    (i + 1) as int,
                                    n as int,
                                    w as int,
                                );
                                assert(q + (n as nat) * w > s.len());
                            }
                            return Err(er);
                        },
                    }
                    data[i] = x;
                    i = i + 1;
                }
                proof {
                    vstd::arithmetic::mul::lemma_mul_inequality(i as int, n as int, w as int);
                }
                Ok(())
            },
        }
    }
}

impl Reflector {
    /// Transfers a length-prefixed `u8` collection with the automatic
    /// (smallest-fitting) length width.
    pub fn reflect_u8_array(&mut self, data: &mut Vec<u8>) -> (res: Result<(), CodecError>)
        requires
            old(self).wf(),
        ensures
            final(self).wf(),
            final(self).direction() == old(self).direction(),
            final(self).endianness() == old(self).endianness(),
            old(self).is_writing() ==> array_write_post::<u8>(
                *old(self),
                *final(self),
                old(data)@,
                final(data)@,
                None,
                res,
            ),
            old(self).is_reading() ==> array_read_post::<u8>(
                *old(self),
                *final(self),
                final(data)@,
                res,
            ),
    {
        self.reflect_primitive_array(data, None)
    }

    /// Transfers a length-prefixed `u8` collection at the length width the
    /// policy forces. The caller guarantees a written length fits that width.
    pub fn reflect_u8_array_ext(&mut self, data: &mut Vec<u8>, size_policy: SizePolicy) -> (res: Result<
        (),
        CodecError,
    >)
        requires
            old(self).wf(),
            old(self).is_writing() ==> (old(data)@.len() as nat) < pow256(
                tag_width(policy_tag(size_policy)),
            ),
        ensures
            final(self).wf(),
            final(self).direction() == old(self).direction(),
            final(self).endianness() == old(self).endianness(),
            old(self).is_writing() ==> array_write_post::<u8>(
                *old(self),
                *final(self),
                old(data)@,
                final(data)@,
                Some(size_policy),
                res,
            ),
            old(self).is_reading() ==> array_read_post::<u8>(
                *old(self),
                *final(self),
                final(data)@,
                res,
            ),
    {
        self.reflect_primitive_array(data, Some(size_policy))
    }

    /// Transfers a length-prefixed `u16` collection with the automatic
    /// (smallest-fitting) length width.
    pub fn reflect_u16_array(&mut self, data: &mut Vec<u16>) -> (res: Result<(), CodecError>)
        requires
            old(self).wf(),
        ensures
            final(self).wf(),
            final(self).direction() == old(self).direction(),
            final(self).endianness() == old(self).endianness(),
            old(self).is_writing() ==> array_write_post::<u16>(
                *old(self),
                *final(self),
                old(data)@,
                final(data)@,
                None,
                res,
            ),
            old(self).is_reading() ==> array_read_post::<u16>(
                *old(self),
                *final(self),
                final(data)@,
                res,
            ),
    {
        self.reflect_primitive_array(data, None)
    }

    /// Transfers a length-prefixed `u16` collection at the length width the
    /// policy forces. The caller guarantees a written length fits that width.
    pub fn reflect_u16_array_ext(&mut self, data: &mut Vec<u16>, size_policy: SizePolicy) -> (res: Result<
        (),
        CodecError,
    >)
        requires
            old(self).wf(),
            old(self).is_writing() ==> (old(data)@.len() as nat) < pow256(
                tag_width(policy_tag(size_policy)),
            ),
        ensures
            final(self).wf(),
            final(self).direction() == old(self).direction(),
            final(self).endianness() == old(self).endianness(),
            old(self).is_writing() ==> array_write_post::<u16>(
                *old(self),
                *final(self),
                old(data)@,
                final(data)@,
                Some(size_policy),
                res,
            ),
            old(self).is_reading() ==> array_read_post::<u16>(
                *old(self),
                *final(self),
                final(data)@,
                res,
            ),
    {
        self.reflect_primitive_array(data, Some(size_policy))
    }

    /// Transfers a length-prefixed `u32` collection with the automatic
    /// (smallest-fitting) length width.
    pub fn reflect_u32_array(&mut self, data: &mut Vec<u32>) -> (res: Result<(), CodecError>)
        requires
            old(self).wf(),
        ensures
            final(self).wf(),
            final(self).direction() == old(self).direction(),
            final(self).endianness() == old(self).endianness(),
            old(self).is_writing() ==> array_write_post::<u32>(
                *old(self),
                *final(self),
                old(data)@,
                final(data)@,
                None,
                res,
            ),
            old(self).is_reading() ==> array_read_post::<u32>(
                *old(self),
                *final(self),
                final(data)@,
                res,
            ),
    {
        self.reflect_primitive_array(data, None)
    }

    /// Transfers a length-prefixed `u32` collection at the length width the
    /// policy forces. The caller guarantees a written length fits that width.
    pub fn reflect_u32_array_ext(&mut self, data: &mut Vec<u32>, size_policy: SizePolicy) -> (res: Result<
        (),
        CodecError,
    >)
        requires
            old(self).wf(),
            old(self).is_writing() ==> (old(data)@.len() as nat) < pow256(
                tag_width(policy_tag(size_policy)),
            ),
        ensures
            final(self).wf(),
            final(self).direction() == old(self).direction(),
            final(self).endianness() == old(self).endianness(),
            old(self).is_writing() ==> array_write_post::<u32>(
                *old(self),
                *final(self),
                old(data)@,
                final(data)@,
                Some(size_policy),
                res,
            ),
            old(self).is_reading() ==> array_read_post::<u32>(
                *old(self),
                *final(self),
                final(data)@,
                res,
            ),
    {
        self.reflect_primitive_array(data, Some(size_policy))
    }

    /// Transfers a length-prefixed `u64` collection with the automatic
    /// (smallest-fitting) length width.
    pub fn reflect_u64_array(&mut self, data: &mut Vec<u64>) -> (res: Result<(), CodecError>)
        requires
            old(self).wf(),
        ensures
            final(self).wf(),
            final(self).direction() == old(self).direction(),
            final(self).endianness() == old(self).endianness(),
            old(self).is_writing() ==> array_write_post::<u64>(
                *old(self),
                *final(self),
                old(data)@,
                final(data)@,
                None,
                res,
            ),
            old(self).is_reading() ==> array_read_post::<u64>(
                *old(self),
                *final(self),
                final(data)@,
                res,
            ),
    {
        self.reflect_primitive_array(data, None)
    }

    /// Transfers a length-prefixed `u64` collection at the length width the
    /// policy forces. The caller guarantees a written length fits that width.
    pub fn reflect_u64_array_ext(&mut self, data: &mut Vec<u64>, size_policy: SizePolicy) -> (res: Result<
        (),
        CodecError,
    >)
        requires
            old(self).wf(),
            old(self).is_writing() ==> (old(data)@.len() as nat) < pow256(
                tag_width(policy_tag(size_policy)),
            ),
        ensures
            final(self).wf(),
            final(self).direction() == old(self).direction(),
            final(self).endianness() == old(self).endianness(),
            old(self).is_writing() ==> array_write_post::<u64>(
                *old(self),
                *final(self),
                old(data)@,
                final(data)@,
                Some(size_policy),
                res,
            ),
            old(self).is_reading() ==> array_read_post::<u64>(
                *old(self),
                *final(self),
                final(data)@,
                res,
            ),
    {
        self.reflect_primitive_array(data, Some(size_policy))
    }

    /// Transfers a length-prefixed `i8` collection with the automatic
    /// (smallest-fitting) length width.
    pub fn reflect_i8_array(&mut self, data: &mut Vec<i8>) -> (res: Result<(), CodecError>)
        requires
            old(self).wf(),
        ensures
            final(self).wf(),
            final(self).direction() == old(self).direction(),
            final(self).endianness() == old(self).endianness(),
            old(self).is_writing() ==> array_write_post::<i8>(
                *old(self),
                *final(self),
                old(data)@,
                final(data)@,
                None,
                res,
            ),
            old(self).is_reading() ==> array_read_post::<i8>(
                *old(self),
                *final(self),
                final(data)@,
                res,
            ),
    {
        self.reflect_primitive_array(data, None)
    }

    /// Transfers a length-prefixed `i8` collection at the length width the
    /// policy forces. The caller guarantees a written length fits that width.
    pub fn reflect_i8_array_ext(&mut self, data: &mut Vec<i8>, size_policy: SizePolicy) -> (res: Result<
        (),
        CodecError,
    >)
        requires
            old(self).wf(),
            old(self).is_writing() ==> (old(data)@.len() as nat) < pow256(
                tag_width(policy_tag(size_policy)),
            ),
        ensures
            final(self).wf(),
            final(self).direction() == old(self).direction(),
            final(self).endianness() == old(self).endianness(),
            old(self).is_writing() ==> array_write_post::<i8>(
                *old(self),
                *final(self),
                old(data)@,
                final(data)@,
                Some(size_policy),
                res,
            ),
            old(self).is_reading() ==> array_read_post::<i8>(
                *old(self),
                *final(self),
                final(data)@,
                res,
            ),
    {
        self.reflect_primitive_array(data, Some(size_policy))
    }

    /// Transfers a length-prefixed `i16` collection with the automatic
    /// (smallest-fitting) length width.
    pub fn reflect_i16_array(&mut self, data: &mut Vec<i16>) -> (res: Result<(), CodecError>)
        requires
            old(self).wf(),
        ensures
            final(self).wf(),
            final(self).direction() == old(self).direction(),
            final(self).endianness() == old(self).endianness(),
            old(self).is_writing() ==> array_write_post::<i16>(
                *old(self),
                *final(self),
                old(data)@,
                final(data)@,
                None,
                res,
            ),
            old(self).is_reading() ==> array_read_post::<i16>(
                *old(self),
                *final(self),
                final(data)@,
                res,
            ),
    {
        self.reflect_primitive_array(data, None)
    }

    /// Transfers a length-prefixed `i16` collection at the length width the
    /// policy forces. The caller guarantees a written length fits that width.
    pub fn reflect_i16_array_ext(&mut self, data: &mut Vec<i16>, size_policy: SizePolicy) -> (res: Result<
        (),
        CodecError,
    >)
        requires
            old(self).wf(),
            old(self).is_writing() ==> (old(data)@.len() as nat) < pow256(
                tag_width(policy_tag(size_policy)),
            ),
        ensures
            final(self).wf(),
            final(self).direction() == old(self).direction(),
            final(self).endianness() == old(self).endianness(),
            old(self).is_writing() ==> array_write_post::<i16>(
                *old(self),
                *final(self),
                old(data)@,
                final(data)@,
                Some(size_policy),
                res,
            ),
            old(self).is_reading() ==> array_read_post::<i16>(
                *old(self),
                *final(self),
                final(data)@,
                res,
            ),
    {
        self.reflect_primitive_array(data, Some(size_policy))
    }

    /// Transfers a length-prefixed `i32` collection with the automatic
    /// (smallest-fitting) length width.
    pub fn reflect_i32_array(&mut self, data: &mut Vec<i32>) -> (res: Result<(), CodecError>)
        requires
            old(self).wf(),
        ensures
            final(self).wf(),
            final(self).direction() == old(self).direction(),
            final(self).endianness() == old(self).endianness(),
            old(self).is_writing() ==> array_write_post::<i32>(
                *old(self),
                *final(self),
                old(data)@,
                final(data)@,
                None,
                res,
            ),
            old(self).is_reading() ==> array_read_post::<i32>(
                *old(self),
                *final(self),
                final(data)@,
                res,
            ),
    {
        self.reflect_primitive_array(data, None)
    }

    /// Transfers a length-prefixed `i32` collection at the length width the
    /// policy forces. The caller guarantees a written length fits that width.
    pub fn reflect_i32_array_ext(&mut self, data: &mut Vec<i32>, size_policy: SizePolicy) -> (res: Result<
        (),
        CodecError,
    >)
        requires
            old(self).wf(),
            old(self).is_writing() ==> (old(data)@.len() as nat) < pow256(
                tag_width(policy_tag(size_policy)),
            ),
        ensures
            final(self).wf(),
            final(self).direction() == old(self).direction(),
            final(self).endianness() == old(self).endianness(),
            old(self).is_writing() ==> array_write_post::<i32>(
                *old(self),
                *final(self),
                old(data)@,
                final(data)@,
                Some(size_policy),
                res,
            ),
            old(self).is_reading() ==> array_read_post::<i32>(
                *old(self),
                *final(self),
                final(data)@,
                res,
            ),
    {
        self.reflect_primitive_array(data, Some(size_policy))
    }

    /// Transfers a length-prefixed `i64` collection with the automatic
    /// (smallest-fitting) length width.
    pub fn reflect_i64_array(&mut self, data: &mut Vec<i64>) -> (res: Result<(), CodecError>)
        requires
            old(self).wf(),
        ensures
            final(self).wf(),
            final(self).direction() == old(self).direction(),
            final(self).endianness() == old(self).endianness(),
            old(self).is_writing() ==> array_write_post::<i64>(
                *old(self),
                *final(self),
                old(data)@,
                final(data)@,
                None,
                res,
            ),
            old(self).is_reading() ==> array_read_post::<i64>(
                *old(self),
                *final(self),
                final(data)@,
                res,
            ),
    {
        self.reflect_primitive_array(data, None)
    }

    /// Transfers a length-prefixed `i64` collection at the length width the
    /// policy forces. The caller guarantees a written length fits that width.
    pub fn reflect_i64_array_ext(&mut self, data: &mut Vec<i64>, size_policy: SizePolicy) -> (res: Result<
        (),
        CodecError,
    >)
        requires
            old(self).wf(),
            old(self).is_writing() ==> (old(data)@.len() as nat) < pow256(
                tag_width(policy_tag(size_policy)),
            ),
        ensures
            final(self).wf(),
            final(self).direction() == old(self).direction(),
            final(self).endianness() == old(self).endianness(),
            old(self).is_writing() ==> array_write_post::<i64>(
                *old(self),
                *final(self),
                old(data)@,
                final(data)@,
                Some(size_policy),
                res,
            ),
            old(self).is_reading() ==> array_read_post::<i64>(
                *old(self),
                *final(self),
                final(data)@,
                res,
            ),
    {
        self.reflect_primitive_array(data, Some(size_policy))
    }

    /// Transfers a length-prefixed `bool` collection with the automatic
    /// (smallest-fitting) length width.
    pub fn reflect_bool_array(&mut self, data: &mut Vec<bool>) -> (res: Result<(), CodecError>)
        requires
            old(self).wf(),
        ensures
            final(self).wf(),
            final(self).direction() == old(self).direction(),
            final(self).endianness() == old(self).endianness(),
            old(self).is_writing() ==> array_write_post::<bool>(
                *old(self),
                *final(self),
                old(data)@,
                final(data)@,
                None,
                res,
            ),
            old(self).is_reading() ==> array_read_post::<bool>(
                *old(self),
                *final(self),
                final(data)@,
                res,
            ),
    {
        self.reflect_primitive_array(data, None)
    }

    /// Transfers a length-prefixed `bool` collection at the length width the
    /// policy forces. The caller guarantees a written length fits that width.
    pub fn reflect_bool_array_ext(&mut self, data: &mut Vec<bool>, size_policy: SizePolicy) -> (res: Result<
        (),
        CodecError,
    >)
        requires
            old(self).wf(),
            old(self).is_writing() ==> (old(data)@.len() as nat) < pow256(
                tag_width(policy_tag(size_policy)),
            ),
        ensures
            final(self).wf(),
            final(self).direction() == old(self).direction(),
            final(self).endianness() == old(self).endianness(),
            old(self).is_writing() ==> array_write_post::<bool>(
                *old(self),
                *final(self),
                old(data)@,
                final(data)@,
                Some(size_policy),
                res,
            ),
            old(self).is_reading() ==> array_read_post::<bool>(
                *old(self),
                *final(self),
                final(data)@,
                res,
            ),
    {
        self.reflect_primitive_array(data, Some(size_policy))
    }

    /// Transfers a length-prefixed collection of `f32` values as their
    /// IEEE-754 bit patterns, carried as `u32` values with the same bits.
    pub fn reflect_f32_bits_array(&mut self, data: &mut Vec<u32>) -> (res: Result<(), CodecError>)
        requires
            old(self).wf(),
        ensures
            final(self).wf(),
            final(self).direction() == old(self).direction(),
            final(self).endianness() == old(self).endianness(),
            old(self).is_writing() ==> array_write_post::<u32>(
                *old(self),
                *final(self),
                old(data)@,
                final(data)@,
                None,
                res,
            ),
            old(self).is_reading() ==> array_read_post::<u32>(
                *old(self),
                *final(self),
                final(data)@,
                res,
            ),
    {
        self.reflect_primitive_array(data, None)
    }

    /// The forced-width variant of `reflect_f32_bits_array`.
    pub fn reflect_f32_bits_array_ext(&mut self, data: &mut Vec<u32>, size_policy: SizePolicy) -> (res: Result<
        (),
        CodecError,
    >)
        requires
            old(self).wf(),
            old(self).is_writing() ==> (old(data)@.len() as nat) < pow256(
                tag_width(policy_tag(size_policy)),
            ),
        ensures
            final(self).wf(),
            final(self).direction() == old(self).direction(),
            final(self).endianness() == old(self).endianness(),
            old(self).is_writing() ==> array_write_post::<u32>(
                *old(self),
                *final(self),
                old(data)@,
                final(data)@,
                Some(size_policy),
                res,
            ),
            old(self).is_reading() ==> array_read_post::<u32>(
                *old(self),
                *final(self),
                final(data)@,
                res,
            ),
    {
        self.reflect_primitive_array(data, Some(size_policy))
    }

    /// Transfers a length-prefixed collection of `f64` values as their
    /// IEEE-754 bit patterns, carried as `u64` values with the same bits.
    pub fn reflect_f64_bits_array(&mut self, data: &mut Vec<u64>) -> (res: Result<(), CodecError>)
        requires
            old(self).wf(),
        ensures
            final(self).wf(),
            final(self).direction() == old(self).direction(),
            final(self).endianness() == old(self).endianness(),
            old(self).is_writing() ==> array_write_post::<u64>(
                *old(self),
                *final(self),
                old(data)@,
                final(data)@,
                None,
                res,
            ),
            old(self).is_reading() ==> array_read_post::<u64>(
                *old(self),
                *final(self),
                final(data)@,
                res,
            ),
    {
        self.reflect_primitive_array(data, None)
    }

    /// The forced-width variant of `reflect_f64_bits_array`.
    pub fn reflect_f64_bits_array_ext(&mut self, data: &mut Vec<u64>, size_policy: SizePolicy) -> (res: Result<
        (),
        CodecError,
    >)
        requires
            old(self).wf(),
            old(self).is_writing() ==> (old(data)@.len() as nat) < pow256(
                tag_width(policy_tag(size_policy)),
            ),
        ensures
            final(self).wf(),
            final(self).direction() == old(self).direction(),
            final(self).endianness() == old(self).endianness(),
            old(self).is_writing() ==> array_write_post::<u64>(
                *old(self),
                *final(self),
                old(data)@,
                final(data)@,
                Some(size_policy),
                res,
            ),
            old(self).is_reading() ==> array_read_post::<u64>(
                *old(self),
                *final(self),
                final(data)@,
                res,
            ),
    {
        self.reflect_primitive_array(data, Some(size_policy))
    }

}

} // verus!
