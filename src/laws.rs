use vstd::prelude::*;

use crate::absorb::Absorb;
use core::marker::PhantomData;
use crate::composite::{ERR_BYTE, FALSE_BYTE, TRUE_BYTE};
use crate::emit::Emit;
use crate::error::{fail, ParseError, ParseErrorKind};
use crate::limit::Limit;
use crate::seq::{
    emit_all, frame_header, models, payload_failure, spec_fold, spec_frame,
    Collection, DynSized, ZERO_PROGRESS,
};
use vstd::utf8::{encode_utf8, encode_utf8_decode_utf8, encode_utf8_valid_utf8};
use crate::primitives::{
    be_u16, be_u32, be_u64, from_be_u16, from_be_u32, from_be_u64, lemma_be_u16, lemma_be_u32,
    lemma_be_u64,
};

verus! {

/// A type whose encoding decodes back to the value it came from.
///
/// `delimited` says that a decode stops at the end of the value's own
/// encoding whatever bytes follow; a type that is not delimited (a
/// `Collection`) reads to the end of its input. `encodable` holds of the
/// values the law is about: lengths fit the 32-bit size field, and elements
/// of sequences have non-empty encodings.
pub trait RoundTrip<'pa>: Absorb<'pa> + Emit {
    spec fn delimited() -> bool;

    spec fn encodable(&self) -> bool;

    proof fn lemma_round_trip(&self, rest: Seq<u8>)
        requires
            self.encodable(),
            Self::delimited() || rest.len() == 0,
        ensures
            Self::spec_absorb(self.spec_emit() + rest, Limit::Unlimited) == Ok::<
                (nat, Self::Model),
                crate::error::ParseError,
            >((self.spec_emit().len(), self.model())),
    ;
}

impl<'pa> RoundTrip<'pa> for u8 {
    open spec fn delimited() -> bool {
        true
    }

    open spec fn encodable(&self) -> bool {
        true
    }

    proof fn lemma_round_trip(&self, rest: Seq<u8>) {
        assert((self.spec_emit() + rest)[0] == *self);
    }
}

impl<'pa> RoundTrip<'pa> for u16 {
    open spec fn delimited() -> bool {
        true
    }

    open spec fn encodable(&self) -> bool {
        true
    }

    proof fn lemma_round_trip(&self, rest: Seq<u8>) {
        lemma_be_u16(*self);
        let input = self.spec_emit() + rest;
        assert(from_be_u16(input) == from_be_u16(be_u16(*self)));
    }
}

impl<'pa> RoundTrip<'pa> for u32 {
    open spec fn delimited() -> bool {
        true
    }

    open spec fn encodable(&self) -> bool {
        true
    }

    proof fn lemma_round_trip(&self, rest: Seq<u8>) {
        lemma_be_u32(*self);
        let input = self.spec_emit() + rest;
        assert(from_be_u32(input) == from_be_u32(be_u32(*self)));
    }
}

impl<'pa> RoundTrip<'pa> for u64 {
    open spec fn delimited() -> bool {
        true
    }

    open spec fn encodable(&self) -> bool {
        true
    }

    proof fn lemma_round_trip(&self, rest: Seq<u8>) {
        lemma_be_u64(*self);
        let input = self.spec_emit() + rest;
        assert(from_be_u64(input) == from_be_u64(be_u64(*self)));
    }
}

impl<'pa> RoundTrip<'pa> for i8 {
    open spec fn delimited() -> bool {
        true
    }

    open spec fn encodable(&self) -> bool {
        true
    }

    proof fn lemma_round_trip(&self, rest: Seq<u8>) {
        let input = self.spec_emit() + rest;
        assert(input[0] == *self as u8);
        assert((*self as u8) as i8 == *self) by (bit_vector);
    }
}

impl<'pa> RoundTrip<'pa> for i16 {
    open spec fn delimited() -> bool {
        true
    }

    open spec fn encodable(&self) -> bool {
        true
    }

    proof fn lemma_round_trip(&self, rest: Seq<u8>) {
        lemma_be_u16(*self as u16);
        let input = self.spec_emit() + rest;
        assert(from_be_u16(input) == from_be_u16(be_u16(*self as u16)));
        assert((*self as u16) as i16 == *self) by (bit_vector);
    }
}

impl<'pa> RoundTrip<'pa> for i32 {
    open spec fn delimited() -> bool {
        true
    }

    open spec fn encodable(&self) -> bool {
        true
    }

    proof fn lemma_round_trip(&self, rest: Seq<u8>) {
        lemma_be_u32(*self as u32);
        let input = self.spec_emit() + rest;
        assert(from_be_u32(input) == from_be_u32(be_u32(*self as u32)));
        assert((*self as u32) as i32 == *self) by (bit_vector);
    }
}

impl<'pa> RoundTrip<'pa> for i64 {
    open spec fn delimited() -> bool {
        true
    }

    open spec fn encodable(&self) -> bool {
        true
    }

    proof fn lemma_round_trip(&self, rest: Seq<u8>) {
        lemma_be_u64(*self as u64);
        let input = self.spec_emit() + rest;
        assert(from_be_u64(input) == from_be_u64(be_u64(*self as u64)));
        assert((*self as u64) as i64 == *self) by (bit_vector);
    }
}

impl<'pa> RoundTrip<'pa> for () {
    open spec fn delimited() -> bool {
        true
    }

    open spec fn encodable(&self) -> bool {
        true
    }

    proof fn lemma_round_trip(&self, rest: Seq<u8>) {
    }
}

impl<'pa, T> RoundTrip<'pa> for PhantomData<T> {
    open spec fn delimited() -> bool {
        true
    }

    open spec fn encodable(&self) -> bool {
        true
    }

    proof fn lemma_round_trip(&self, rest: Seq<u8>) {
    }
}

impl<'pa> RoundTrip<'pa> for bool {
    open spec fn delimited() -> bool {
        true
    }

    open spec fn encodable(&self) -> bool {
        true
    }

    proof fn lemma_round_trip(&self, rest: Seq<u8>) {
        let input = self.spec_emit() + rest;
        assert(input[0] == self.spec_emit()[0]);
    }
}

impl<'pa, const S: usize> RoundTrip<'pa> for [u8; S] {
    open spec fn delimited() -> bool {
        true
    }

    open spec fn encodable(&self) -> bool {
        true
    }

    proof fn lemma_round_trip(&self, rest: Seq<u8>) {
        assert((self@ + rest).subrange(0, S as int) =~= self@);
    }
}

impl<'pa, A: RoundTrip<'pa>, B: RoundTrip<'pa>> RoundTrip<'pa> for (A, B) {
    open spec fn delimited() -> bool {
        A::delimited() && B::delimited()
    }

    /// The first component must be delimited, or it would take the bytes of
    /// the second.
    open spec fn encodable(&self) -> bool {
        A::delimited() && self.0.encodable() && self.1.encodable()
    }

    proof fn lemma_round_trip(&self, rest: Seq<u8>) {
        let ea = self.0.spec_emit();
        let eb = self.1.spec_emit();
        let input = self.spec_emit() + rest;
        assert(input =~= ea + (eb + rest));
        self.0.lemma_round_trip(eb + rest);
        assert(input.subrange(ea.len() as int, input.len() as int) =~= eb + rest);
        self.1.lemma_round_trip(rest);
    }
}

impl<'pa, T: RoundTrip<'pa>> RoundTrip<'pa> for Option<T> {
    open spec fn delimited() -> bool {
        T::delimited()
    }

    open spec fn encodable(&self) -> bool {
        match self {
            None => true,
            Some(v) => v.encodable(),
        }
    }

    proof fn lemma_round_trip(&self, rest: Seq<u8>) {
        let input = self.spec_emit() + rest;
        match self {
            None => {
                assert(input[0] == FALSE_BYTE);
            },
            Some(v) => {
                assert(input[0] == TRUE_BYTE);
                assert(input.subrange(1, input.len() as int) =~= v.spec_emit() + rest);
                v.lemma_round_trip(rest);
            },
        }
    }
}

impl<'pa, T: RoundTrip<'pa>, E: RoundTrip<'pa>> RoundTrip<'pa> for Result<T, E> {
    open spec fn delimited() -> bool {
        T::delimited() && E::delimited()
    }

    open spec fn encodable(&self) -> bool {
        match self {
            Ok(v) => v.encodable(),
            Err(v) => v.encodable(),
        }
    }

    proof fn lemma_round_trip(&self, rest: Seq<u8>) {
        let input = self.spec_emit() + rest;
        match self {
            Ok(v) => {
                assert(input[0] == TRUE_BYTE);
                assert(input.subrange(1, input.len() as int) =~= v.spec_emit() + rest);
                v.lemma_round_trip(rest);
            },
            Err(v) => {
                assert(input[0] == ERR_BYTE);
                assert(input.subrange(1, input.len() as int) =~= v.spec_emit() + rest);
                v.lemma_round_trip(rest);
            },
        }
    }
}

impl<'pa, T: RoundTrip<'pa>> RoundTrip<'pa> for Box<T> {
    open spec fn delimited() -> bool {
        T::delimited()
    }

    open spec fn encodable(&self) -> bool {
        (**self).encodable()
    }

    proof fn lemma_round_trip(&self, rest: Seq<u8>) {
        (**self).lemma_round_trip(rest);
    }
}

/// A frame header for `payload` decodes, under no bound, to exactly the
/// payload.
pub proof fn lemma_frame(payload: Seq<u8>, rest: Seq<u8>)
    requires
        payload.len() <= u32::MAX,
    ensures
        spec_frame(frame_header(payload.len()) + payload + rest, Limit::Unlimited) == Ok::<
            Seq<u8>,
            ParseError,
        >(payload),
{
    reveal(spec_frame);
    let x = payload.len() as u32;
    lemma_be_u32(x);
    let input = frame_header(payload.len()) + payload + rest;
    assert(from_be_u32(input) == from_be_u32(be_u32(x)));
    assert(input.subrange(4, 4 + payload.len() as int) =~= payload);
}

impl<'pa> RoundTrip<'pa> for usize {
    open spec fn delimited() -> bool {
        true
    }

    /// A size field holds 32 bits.
    open spec fn encodable(&self) -> bool {
        *self <= u32::MAX
    }

    proof fn lemma_round_trip(&self, rest: Seq<u8>) {
        let x = *self as u32;
        lemma_be_u32(x);
        let input = self.spec_emit() + rest;
        assert(from_be_u32(input) == from_be_u32(be_u32(x)));
    }
}

impl<'pa> RoundTrip<'pa> for &'pa str {
    open spec fn delimited() -> bool {
        true
    }

    open spec fn encodable(&self) -> bool {
        encode_utf8(self@).len() <= u32::MAX
    }

    proof fn lemma_round_trip(&self, rest: Seq<u8>) {
        let bytes = encode_utf8(self@);
        lemma_frame(bytes, rest);
        encode_utf8_valid_utf8(self@);
        encode_utf8_decode_utf8(self@);
        assert(self.spec_emit() + rest =~= frame_header(bytes.len()) + bytes + rest);
    }
}

impl<'pa> RoundTrip<'pa> for String {
    open spec fn delimited() -> bool {
        true
    }

    open spec fn encodable(&self) -> bool {
        encode_utf8(self@).len() <= u32::MAX
    }

    proof fn lemma_round_trip(&self, rest: Seq<u8>) {
        let bytes = encode_utf8(self@);
        lemma_frame(bytes, rest);
        encode_utf8_valid_utf8(self@);
        encode_utf8_decode_utf8(self@);
        assert(self.spec_emit() + rest =~= frame_header(bytes.len()) + bytes + rest);
    }
}

impl<'pa, T: RoundTrip<'pa>> RoundTrip<'pa> for DynSized<T> {
    open spec fn delimited() -> bool {
        true
    }

    /// The payload may be of any type: the frame tells where it ends.
    open spec fn encodable(&self) -> bool {
        self.0.encodable() && self.0.spec_emit().len() <= u32::MAX
    }

    proof fn lemma_round_trip(&self, rest: Seq<u8>) {
        let payload = self.0.spec_emit();
        lemma_frame(payload, rest);
        assert(self.spec_emit() + rest =~= frame_header(payload.len()) + payload + rest);
        self.0.lemma_round_trip(Seq::empty());
        assert(payload + Seq::<u8>::empty() =~= payload);
    }
}

/// The encodings of a non-empty sequence are those of its first element,
/// then those of the others.
pub proof fn lemma_emit_all_first<T: Emit>(s: Seq<T>)
    requires
        s.len() > 0,
    ensures
        emit_all(s) == s[0].spec_emit() + emit_all(s.drop_first()),
    decreases s.len(),
{
    if s.len() == 1 {
        assert(s.drop_first() =~= Seq::<T>::empty());
        assert(s.drop_last() =~= Seq::<T>::empty());
        assert(emit_all(s.drop_last()) =~= Seq::<u8>::empty());
        assert(emit_all(s) =~= s[0].spec_emit());
        assert(s[0].spec_emit() + Seq::<u8>::empty() =~= s[0].spec_emit());
    } else {
        lemma_emit_all_first(s.drop_last());
        assert(s.drop_last().drop_first() =~= s.drop_first().drop_last());
        assert(s.drop_first().last() == s.last());
        assert(emit_all(s) =~= s[0].spec_emit() + emit_all(s.drop_first()));
    }
}

/// The elements of a sequence can each be decoded back from its encodings.
pub open spec fn elements_encodable<'pa, T: RoundTrip<'pa>>(s: Seq<T>) -> bool {
    forall|i: int|
        0 <= i < s.len() ==> #[trigger] s[i].encodable() && s[i].spec_emit().len() > 0
}

/// Folding the encodings of delimited elements with non-empty encodings
/// yields the elements back.
pub proof fn lemma_fold_round_trip<'pa, T: RoundTrip<'pa>>(s: Seq<T>)
    requires
        T::delimited(),
        elements_encodable(s),
    ensures
        spec_fold::<T>(emit_all(s), Limit::Unlimited) == Ok::<Seq<T::Model>, ParseError>(
            models(s),
        ),
    decreases s.len(),
{
    if s.len() == 0 {
        assert(models(s) =~= Seq::<T::Model>::empty());
    } else {
        lemma_emit_all_first(s);
        let first = s[0].spec_emit();
        let others = emit_all(s.drop_first());
        assert(s[0].encodable() && s[0].spec_emit().len() > 0);
        s[0].lemma_round_trip(others);
        assert(elements_encodable(s.drop_first())) by {
            assert forall|i: int| 0 <= i < s.drop_first().len() implies #[trigger] s.drop_first()[
                i
            ].encodable() && s.drop_first()[i].spec_emit().len() > 0 by {
                assert(s.drop_first()[i] == s[i + 1]);
            }
        }
        lemma_fold_round_trip(s.drop_first());
        let input = emit_all(s);
        assert(input.subrange(first.len() as int, input.len() as int) =~= others);
        assert(models(s) =~= seq![s[0].model()] + models(s.drop_first()));
    }
}

impl<'pa, T: RoundTrip<'pa>> RoundTrip<'pa> for Collection<T> {
    /// It reads to the end of its input.
    open spec fn delimited() -> bool {
        false
    }

    open spec fn encodable(&self) -> bool {
        T::delimited() && elements_encodable(self.0@)
    }

    proof fn lemma_round_trip(&self, rest: Seq<u8>) {
        assert(self.spec_emit() + rest =~= self.spec_emit());
        lemma_fold_round_trip(self.0@);
    }
}

impl<'pa, T: RoundTrip<'pa>> RoundTrip<'pa> for Box<[T]> {
    /// It reads to the end of its input.
    open spec fn delimited() -> bool {
        false
    }

    open spec fn encodable(&self) -> bool {
        T::delimited() && elements_encodable(self@)
    }

    proof fn lemma_round_trip(&self, rest: Seq<u8>) {
        assert(self.spec_emit() + rest =~= self.spec_emit());
        lemma_fold_round_trip(self@);
    }
}

impl<'pa, T: RoundTrip<'pa>> RoundTrip<'pa> for Vec<T> {
    open spec fn delimited() -> bool {
        true
    }

    open spec fn encodable(&self) -> bool {
        T::delimited() && elements_encodable(self@) && emit_all(self@).len() <= u32::MAX
    }

    proof fn lemma_round_trip(&self, rest: Seq<u8>) {
        let payload = emit_all(self@);
        lemma_frame(payload, rest);
        assert(self.spec_emit() + rest =~= frame_header(payload.len()) + payload + rest);
        lemma_fold_round_trip(self@);
    }
}

/// Encoding a value and decoding the bytes with no bound gives the value
/// back and consumes every byte.
pub proof fn lemma_decode_encode<'pa, T: RoundTrip<'pa>>(v: T)
    requires
        v.encodable(),
    ensures
        T::spec_absorb(v.spec_emit(), Limit::Unlimited) == Ok::<(nat, T::Model), ParseError>(
            (v.spec_emit().len(), v.model()),
        ),
{
    v.lemma_round_trip(Seq::empty());
    assert(v.spec_emit() + Seq::<u8>::empty() =~= v.spec_emit());
}

/// The length written before a framed value is the byte length of the
/// payload's encoding, when that length fits the 32-bit size field.
pub proof fn lemma_frame_length<T: Emit>(v: DynSized<T>)
    requires
        v.0.spec_emit().len() <= u32::MAX,
    ensures
        v.spec_emit().len() == 4 + v.0.spec_emit().len(),
        from_be_u32(v.spec_emit()) == v.0.spec_emit().len(),
        v.spec_emit().subrange(4, v.spec_emit().len() as int) == v.0.spec_emit(),
{
    let x = v.0.spec_emit().len() as u32;
    lemma_be_u32(x);
    assert(from_be_u32(v.spec_emit()) == from_be_u32(be_u32(x)));
    assert(v.spec_emit().subrange(4, v.spec_emit().len() as int) =~= v.0.spec_emit());
}

/// A frame that holds a value's encoding followed by more bytes does not
/// decode: the bytes the payload leaves inside the frame are an error.
pub proof fn lemma_frame_trailing<'pa, T: RoundTrip<'pa>>(v: T, extra: Seq<u8>, rest: Seq<u8>)
    requires
        T::delimited(),
        v.encodable(),
        extra.len() > 0,
        v.spec_emit().len() + extra.len() <= u32::MAX,
    ensures
        DynSized::<T>::spec_absorb(
            frame_header(v.spec_emit().len() + extra.len()) + v.spec_emit() + extra + rest,
            Limit::Unlimited,
        ) == Err::<(nat, T::Model), ParseError>(
            fail(extra.len() as usize, ParseErrorKind::Trailing),
        ),
{
    let e = v.spec_emit();
    let payload = e + extra;
    assert(payload.len() == e.len() + extra.len());
    let h = frame_header(payload.len());
    let input = h + e + extra + rest;
    lemma_frame(payload, rest);
    assert(input =~= h + payload + rest);
    v.lemma_round_trip(extra);
    lemma_framed::<T>(input, Limit::Unlimited, payload);
}

/// How a framed value decodes once its frame is known.
proof fn lemma_framed<'pa, T: Absorb<'pa>>(input: Seq<u8>, limit: Limit, frame: Seq<u8>)
    requires
        spec_frame(input, limit) == Ok::<Seq<u8>, ParseError>(frame),
    ensures
        DynSized::<T>::spec_absorb(input, limit) == match T::spec_absorb(
            frame,
            limit.spec_inner(),
        ) {
            Err(e) => Err(payload_failure(frame.len(), e)),
            Ok((n, v)) => if n == frame.len() {
                Ok((4 + frame.len(), v))
            } else {
                Err(fail((frame.len() - n) as usize, ParseErrorKind::Trailing))
            },
        },
{
}

/// An element decoder that consumes no bytes makes the fold fail at once
/// instead of looping.
pub proof fn lemma_zero_progress<'pa, T: Absorb<'pa>>(input: Seq<u8>, limit: Limit)
    requires
        input.len() > 0,
        T::spec_absorb(input, limit) matches Ok((n, _)) && n == 0,
    ensures
        spec_fold::<T>(input, limit) == Err::<Seq<T::Model>, ParseError>(
            fail(input.len() as usize, ParseErrorKind::Custom(ZERO_PROGRESS)),
        ),
{
}

/// Inside a frame only the inner bound counts: once the frame's length has
/// passed the outer bound, decoding the framed value gives the same result
/// under any outer bound with the same inner bound, and a failure of the
/// payload under the inner bound, other than running out of input, is
/// reported as it is, with the inner bound's description when a size inside
/// breaks it.
pub proof fn lemma_bound_independence<'pa, T: Absorb<'pa>>(
    input: Seq<u8>,
    outer: Limit,
    other: Limit,
)
    requires
        spec_frame(input, outer) is Ok,
        spec_frame(input, other) is Ok,
        outer.spec_inner() == other.spec_inner(),
    ensures
        DynSized::<T>::spec_absorb(input, outer) == DynSized::<T>::spec_absorb(input, other),
        match T::spec_absorb(spec_frame(input, outer)->Ok_0, outer.spec_inner()) {
            Err(e) => !(e.kind is Eof) ==> DynSized::<T>::spec_absorb(input, outer) == Err::<
                (nat, T::Model),
                ParseError,
            >(e),
            Ok(_) => true,
        },
{
    reveal(spec_frame);
}

/// A payload that runs past the end of its complete frame is a failure that
/// more input cannot mend: the framed decode does not report running out of
/// input, but a truncated payload with that cause behind it.
pub proof fn lemma_truncated_payload<'pa, T: Absorb<'pa>>(input: Seq<u8>, limit: Limit)
    requires
        spec_frame(input, limit) is Ok,
        T::spec_absorb(spec_frame(input, limit)->Ok_0, limit.spec_inner()) matches Err(e)
            && e.kind is Eof,
    ensures
        DynSized::<T>::spec_absorb(input, limit) matches Err(f) && f.kind
            == ParseErrorKind::Truncated && !(f.kind is Eof),
{
}

/// The length written before an encoded `Vec` is the byte length of its
/// elements' encodings (not their count), when it fits the 32-bit size field.
pub proof fn lemma_vec_frame_length<T: Emit>(v: Vec<T>)
    requires
        emit_all(v@).len() <= u32::MAX,
    ensures
        v.spec_emit().len() == 4 + emit_all(v@).len(),
        from_be_u32(v.spec_emit()) == emit_all(v@).len(),
        v.spec_emit().subrange(4, v.spec_emit().len() as int) == emit_all(v@),
{
    let x = emit_all(v@).len() as u32;
    lemma_be_u32(x);
    assert(from_be_u32(v.spec_emit()) == from_be_u32(be_u32(x)));
    assert(v.spec_emit().subrange(4, v.spec_emit().len() as int) =~= emit_all(v@));
}

/// A size field that breaks its bound fails with that bound's description.
pub proof fn lemma_limit_description(input: Seq<u8>, limit: Limit)
    requires
        input.len() >= 4,
        !(limit.spec_lower() <= from_be_u32(input) as usize <= limit.spec_upper()),
    ensures
        <usize as Absorb>::spec_absorb(input, limit) matches Err(e) && e.kind
            matches ParseErrorKind::Limit(_, d) && d == limit.spec_description(),
{
}

} // verus!
