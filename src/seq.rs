use vstd::prelude::*;

use crate::absorb::Absorb;
use crate::buffer::RadiationBuffer;
use crate::emit::Emit;
use crate::error::{fail, ParseError, ParseErrorKind};
use crate::limit::Limit;
use crate::primitives::{be_u32, from_be_u32};
use vstd::slice::slice_subrange;
use vstd::utf8::{decode_utf8, encode_utf8, encode_utf8_decode_utf8, valid_utf8};

verus! {

/// A value whose encoding is preceded by its byte length; decoding it must
/// use up exactly that many bytes, under the `inner` bound of the bound it is
/// decoded with.
#[derive(Debug, Clone, PartialEq, Eq)]
pub struct DynSized<T>(pub T);

/// A sequence of elements with no length of its own: decoding it folds
/// elements until the input runs out, after checking the input's length
/// against the bound.
#[derive(Debug, Clone, PartialEq, Eq)]
pub struct Collection<T>(pub Vec<T>);

/// The message of the failure of an element that consumed no bytes.
pub const ZERO_PROGRESS: &'static str = "zero sized infinite loop";

/// The message of the failure of text that is not well-formed UTF-8.
pub const MALFORMED_TEXT: &'static str = "invalid utf-8";

/// The four big-endian bytes of `x`.
fn be_bytes_u32(x: u32) -> (r: [u8; 4])
    ensures
        r@ == be_u32(x),
{
    let r = [(x >> 24) as u8, (x >> 16) as u8, (x >> 8) as u8, x as u8];
    assert(r@ =~= be_u32(x));
    r
}

/// Appends the four big-endian bytes of `x`.
fn put_u32<W: RadiationBuffer>(x: u32, buffer: &mut W)
    requires
        old(buffer).contents().len() + 4 <= old(buffer).capacity(),
    ensures
        final(buffer).contents() == old(buffer).contents() + be_u32(x),
        final(buffer).capacity() == old(buffer).capacity(),
{
    let bytes = be_bytes_u32(x);
    buffer.extend(&bytes);
}

/// The header of a frame of `len` bytes: the length, cut to 32 bits.
pub open spec fn frame_header(len: nat) -> Seq<u8> {
    be_u32(len as u32)
}

/// Relies on core::str::from_utf8: it succeeds exactly on well-formed UTF-8,
/// and the text it returns is made of the given bytes.
#[verifier::external_body]
fn text_of<'a>(bytes: &'a [u8]) -> (r: Option<&'a str>)
    ensures
        r is Some <==> valid_utf8(bytes@),
        r matches Some(s) ==> encode_utf8(s@) == bytes@,
{
    core::str::from_utf8(bytes).ok()
}

/// A size field: four big-endian bytes, then the check against the bound.
impl<'pa> Absorb<'pa> for usize {
    type Model = usize;

    open spec fn model(&self) -> usize {
        *self
    }

    open spec fn spec_absorb(input: Seq<u8>, limit: Limit) -> Result<(nat, usize), ParseError> {
        if input.len() < 4 {
            Err(fail(input.len() as usize, ParseErrorKind::Eof))
        } else {
            let size = from_be_u32(input) as usize;
            match limit.spec_check(size) {
                Ok(_) => Ok((4, size)),
                Err(e) => Err(
                    fail(
                        (input.len() - 4) as usize,
                        ParseErrorKind::Limit(e, limit.spec_description()),
                    ),
                ),
            }
        }
    }

    fn absorb(input: &'pa [u8], limit: &Limit) -> (r: Result<(&'pa [u8], usize), ParseError>) {
        match u32::absorb(input, limit) {
            Err(e) => Err(e),
            Ok((rest, size)) => {
                let size = size as usize;
                match limit.check(size) {
                    Ok(_) => Ok((rest, size)),
                    Err(e) => Err(ParseErrorKind::Limit(e, limit.description()).error(rest.len())),
                }
            },
        }
    }
}

impl Emit for usize {
    open spec fn spec_emit(&self) -> Seq<u8> {
        be_u32(*self as u32)
    }

    fn emit<W: RadiationBuffer>(&self, buffer: &mut W) {
        #[verifier::truncate]
        let size = *self as u32;
        put_u32(size, buffer);
    }
}

/// What decoding a byte-length-prefixed region yields before its payload is
/// read: the size field under `limit`, then the frame of that many bytes.
#[verifier::opaque]
pub open spec fn spec_frame(input: Seq<u8>, limit: Limit) -> Result<Seq<u8>, ParseError> {
    match <usize as Absorb>::spec_absorb(input, limit) {
        Err(e) => Err(e),
        Ok((_, len)) => if input.len() - 4 < len {
            Err(fail((input.len() - 4) as usize, ParseErrorKind::Eof))
        } else {
            Ok(input.subrange(4, 4 + len))
        },
    }
}

/// Reads a size field and the frame that it announces; hands back the frame
/// and the bytes after it.
fn absorb_frame<'pa>(input: &'pa [u8], limit: &Limit) -> (r: Result<
    (&'pa [u8], &'pa [u8]),
    ParseError,
>)
    ensures
        match r {
            Ok((frame, rest)) => {
                &&& spec_frame(input@, *limit) == Ok::<Seq<u8>, ParseError>(frame@)
                &&& input@.len() >= 4
                &&& input@ == input@.subrange(0, 4) + frame@ + rest@
            },
            Err(e) => spec_frame(input@, *limit) == Err::<Seq<u8>, ParseError>(e),
        },
{
    proof {
        reveal(spec_frame);
    }
    match usize::absorb(input, limit) {
        Err(e) => Err(e),
        Ok((rest, len)) => {
            if rest.len() < len {
                Err(ParseErrorKind::Eof.error(rest.len()))
            } else {
                let frame = slice_subrange(rest, 0, len);
                let tail = slice_subrange(rest, len, rest.len());
                assert(input@ =~= input@.subrange(0, 4) + frame@ + tail@);
                assert(frame@ =~= input@.subrange(4, 4 + len));
                Ok((frame, tail))
            }
        },
    }
}

impl<'pa> Absorb<'pa> for &'pa str {
    type Model = Seq<char>;

    open spec fn model(&self) -> Seq<char> {
        self@
    }

    /// A size field, then that many bytes of well-formed UTF-8.
    open spec fn spec_absorb(input: Seq<u8>, limit: Limit) -> Result<(nat, Seq<char>), ParseError> {
        match spec_frame(input, limit) {
            Err(e) => Err(e),
            Ok(bytes) => if valid_utf8(bytes) {
                Ok((4 + bytes.len(), decode_utf8(bytes)))
            } else {
                Err(fail(input.len() as usize, ParseErrorKind::Custom(MALFORMED_TEXT)))
            },
        }
    }

    fn absorb(input: &'pa [u8], limit: &Limit) -> (r: Result<(&'pa [u8], &'pa str), ParseError>) {
        match absorb_frame(input, limit) {
            Err(e) => Err(e),
            Ok((bytes, rest)) => match text_of(bytes) {
                None => Err(ParseErrorKind::Custom(MALFORMED_TEXT).error(input.len())),
                Some(s) => {
                    proof {
                        encode_utf8_decode_utf8(s@);
                    }
                    assert(rest@ =~= input@.subrange(
                        input@.len() - rest@.len(),
                        input@.len() as int,
                    ));
                    Ok((rest, s))
                },
            },
        }
    }
}

impl<'pa> Absorb<'pa> for String {
    type Model = Seq<char>;

    open spec fn model(&self) -> Seq<char> {
        self@
    }

    open spec fn spec_absorb(input: Seq<u8>, limit: Limit) -> Result<(nat, Seq<char>), ParseError> {
        <&'pa str as Absorb<'pa>>::spec_absorb(input, limit)
    }

    fn absorb(input: &'pa [u8], limit: &Limit) -> (r: Result<(&'pa [u8], String), ParseError>) {
        match <&'pa str>::absorb(input, limit) {
            Err(e) => Err(e),
            Ok((rest, s)) => Ok((rest, s.to_owned())),
        }
    }
}

impl Emit for str {
    /// The byte length, then the UTF-8 bytes.
    open spec fn spec_emit(&self) -> Seq<u8> {
        frame_header(encode_utf8(self@).len()) + encode_utf8(self@)
    }

    fn emit<W: RadiationBuffer>(&self, buffer: &mut W) {
        let bytes = self.as_bytes();
        #[verifier::truncate]
        let len = bytes.len() as u32;
        put_u32(len, buffer);
        buffer.extend(bytes);
        assert(final(buffer).contents() =~= old(buffer).contents() + self.spec_emit());
    }
}

impl Emit for String {
    open spec fn spec_emit(&self) -> Seq<u8> {
        frame_header(encode_utf8(self@).len()) + encode_utf8(self@)
    }

    fn emit<W: RadiationBuffer>(&self, buffer: &mut W) {
        self.as_str().emit(buffer);
    }
}

impl<'a, T: Emit + ?Sized> Emit for &'a T {
    open spec fn spec_emit(&self) -> Seq<u8> {
        (**self).spec_emit()
    }

    fn emit<W: RadiationBuffer>(&self, buffer: &mut W) {
        (**self).emit(buffer);
    }
}

/// What a payload's failure `e` becomes, inside a complete frame of `len`
/// bytes: running out of input is no longer a matter of waiting for more, so
/// it is reported as a truncated payload; any other failure stays as it is.
pub open spec fn payload_failure(len: nat, e: ParseError) -> ParseError {
    if e.kind is Eof {
        ParseError {
            input: len as usize,
            kind: ParseErrorKind::Truncated,
            subsequent: Some(Box::new(e)),
        }
    } else {
        e
    }
}

impl<'pa, T: Absorb<'pa>> Absorb<'pa> for DynSized<T> {
    type Model = T::Model;

    open spec fn model(&self) -> T::Model {
        self.0.model()
    }

    /// A size field under the bound, then the payload decoded from exactly
    /// that frame under the bound's `inner`; bytes the payload leaves in the
    /// frame are an error, and so is a payload that runs past the frame: the
    /// frame is complete, so more input cannot help.
    open spec fn spec_absorb(input: Seq<u8>, limit: Limit) -> Result<(nat, T::Model), ParseError> {
        match spec_frame(input, limit) {
            Err(e) => Err(e),
            Ok(frame) => match T::spec_absorb(frame, limit.spec_inner()) {
                Err(e) => Err(payload_failure(frame.len(), e)),
                Ok((n, v)) => if n == frame.len() {
                    Ok((4 + frame.len(), v))
                } else {
                    Err(fail((frame.len() - n) as usize, ParseErrorKind::Trailing))
                },
            },
        }
    }

    fn absorb(input: &'pa [u8], limit: &Limit) -> (r: Result<
        (&'pa [u8], DynSized<T>),
        ParseError,
    >) {
        match absorb_frame(input, limit) {
            Err(e) => Err(e),
            Ok((frame, rest)) => match T::absorb(frame, limit.inner()) {
                Err(e) => {
                    if e.kind.is_eof() {
                        let wrapped = ParseError {
                            input: frame.len(),
                            kind: ParseErrorKind::Truncated,
                            subsequent: Some(Box::new(e)),
                        };
                        Err(wrapped)
                    } else {
                        Err(e)
                    }
                },
                Ok((left, v)) => {
                    if left.len() == 0 {
                        assert(rest@ =~= input@.subrange(
                            input@.len() - rest@.len(),
                            input@.len() as int,
                        ));
                        Ok((rest, DynSized(v)))
                    } else {
                        Err(ParseErrorKind::Trailing.error(left.len()))
                    }
                },
            },
        }
    }
}

impl<T: Emit> Emit for DynSized<T> {
    /// The payload's byte length, then the payload.
    open spec fn spec_emit(&self) -> Seq<u8> {
        frame_header(self.0.spec_emit().len()) + self.0.spec_emit()
    }

    /// Writes a placeholder length, the payload, then patches the length in.
    fn emit<W: RadiationBuffer>(&self, buffer: &mut W) {
        let pos = buffer.pos();
        put_u32(0, buffer);
        self.0.emit(buffer);
        let len = buffer.pos() - pos - 4;
        #[verifier::truncate]
        let header = len as u32;
        let bytes = be_bytes_u32(header);
        buffer.write_at(pos, &bytes);
        assert(final(buffer).contents() =~= old(buffer).contents() + self.spec_emit());
    }
}

/// The failure of a sequence whose element failed with `e`, where `input`
/// bytes were left.
pub open spec fn element_failure(input: nat, e: ParseError) -> ParseError {
    ParseError { input: input as usize, kind: ParseErrorKind::Many, subsequent: Some(Box::new(e)) }
}

/// What folding elements over the whole of `input` yields, each element under
/// `limit`: the models in order, or the first failure. An element that
/// consumes no bytes is a failure, so the fold always ends.
pub open spec fn spec_fold<'pa, T: Absorb<'pa>>(input: Seq<u8>, limit: Limit) -> Result<
    Seq<T::Model>,
    ParseError,
>
    decreases input.len(),
{
    if input.len() == 0 {
        Ok(Seq::empty())
    } else {
        match T::spec_absorb(input, limit) {
            Err(e) => Err(element_failure(input.len(), e)),
            Ok((n, v)) => if n == 0 || n > input.len() {
                Err(fail(input.len() as usize, ParseErrorKind::Custom(ZERO_PROGRESS)))
            } else {
                match spec_fold::<T>(input.subrange(n as int, input.len() as int), limit) {
                    Err(e) => Err(e),
                    Ok(rest) => Ok(seq![v] + rest),
                }
            },
        }
    }
}

/// What the bounded fold yields on `input`: the input's length is checked
/// against `limit` first, then elements are folded under its `inner`.
pub open spec fn spec_bounded_fold<'pa, T: Absorb<'pa>>(input: Seq<u8>, limit: Limit) -> Result<
    Seq<T::Model>,
    ParseError,
> {
    match limit.spec_check(input.len() as usize) {
        Err(e) => Err(
            fail(input.len() as usize, ParseErrorKind::Limit(e, limit.spec_description())),
        ),
        Ok(_) => spec_fold::<T>(input, limit.spec_inner()),
    }
}

/// The models of a sequence of values.
pub open spec fn models<'pa, T: Absorb<'pa>>(s: Seq<T>) -> Seq<T::Model> {
    s.map_values(|v: T| v.model())
}

/// Decodes elements until `input` is used up, checking its length against
/// `limit` first.
fn fold<'pa, T: Absorb<'pa>>(input: &'pa [u8], limit: &Limit) -> (r: Result<Vec<T>, ParseError>)
    ensures
        match r {
            Ok(v) => spec_bounded_fold::<T>(input@, *limit) == Ok::<Seq<T::Model>, ParseError>(
                models(v@),
            ),
            Err(e) => spec_bounded_fold::<T>(input@, *limit) == Err::<Seq<T::Model>, ParseError>(e),
        },
{
    match limit.check(input.len()) {
        Err(e) => { return Err(ParseErrorKind::Limit(e, limit.description()).error(input.len())) },
        Ok(_) => {},
    }
    let inner = limit.inner();
    let mut acc: Vec<T> = Vec::new();
    let mut cur = input;
    while cur.len() > 0
        invariant
            spec_bounded_fold::<T>(input@, *limit) == spec_fold::<T>(input@, *inner),
            spec_fold::<T>(input@, *inner) == match spec_fold::<T>(cur@, *inner) {
                Err(e) => Err(e),
                Ok(rest) => Ok::<Seq<T::Model>, ParseError>(models(acc@) + rest),
            },
        decreases cur@.len(),
    {
        let len = cur.len();
        match T::absorb(cur, inner) {
            Err(e) => {
                let wrapped = ParseError {
                    input: len,
                    kind: ParseErrorKind::Many,
                    subsequent: Some(Box::new(e)),
                };
                assert(wrapped == element_failure(len as nat, e));
                assert(spec_fold::<T>(cur@, *inner) == Err::<Seq<T::Model>, ParseError>(wrapped));
                return Err(wrapped);
            },
            Ok((tail, v)) => {
                if tail.len() == len {
                    let err = ParseErrorKind::Custom(ZERO_PROGRESS).error(len);
                    assert(spec_fold::<T>(cur@, *inner) == Err::<Seq<T::Model>, ParseError>(err));
                    return Err(err);
                }
                let ghost prev = acc@;
                let ghost v_model = v.model();
                acc.push(v);
                proof {
                    assert(models(acc@) =~= models(prev) + seq![v_model]);
                    assert(tail@ =~= cur@.subrange((len - tail@.len()) as int, len as int));
                    match spec_fold::<T>(tail@, *inner) {
                        Err(e) => {},
                        Ok(rest) => {
                            assert(models(prev) + (seq![v_model] + rest) =~= models(acc@) + rest);
                        },
                    }
                }
                cur = tail;
            },
        }
    }
    assert(models(acc@) + Seq::<T::Model>::empty() =~= models(acc@));
    Ok(acc)
}

/// The concatenated encodings of a sequence of values, in order.
pub open spec fn emit_all<T: Emit>(s: Seq<T>) -> Seq<u8>
    decreases s.len(),
{
    if s.len() == 0 {
        Seq::empty()
    } else {
        emit_all(s.drop_last()) + s.last().spec_emit()
    }
}

/// Appends the encodings of the elements of `items`, in order.
fn emit_each<T: Emit, W: RadiationBuffer>(items: &[T], buffer: &mut W)
    requires
        old(buffer).contents().len() + emit_all(items@).len() <= old(buffer).capacity(),
    ensures
        final(buffer).contents() == old(buffer).contents() + emit_all(items@),
        final(buffer).capacity() == old(buffer).capacity(),
{
    let ghost start = buffer.contents();
    let mut i: usize = 0;
    while i < items.len()
        invariant
            0 <= i <= items@.len(),
            buffer.contents() == start + emit_all(items@.subrange(0, i as int)),
            buffer.capacity() == old(buffer).capacity(),
            start.len() + emit_all(items@).len() <= old(buffer).capacity(),
        decreases items@.len() - i,
    {
        proof {
            lemma_emit_all_prefix(items@, (i + 1) as int);
            assert(items@.subrange(0, i + 1).drop_last() =~= items@.subrange(0, i as int));
        }
        items[i].emit(buffer);
        i = i + 1;
        assert(buffer.contents() =~= start + emit_all(items@.subrange(0, i as int)));
    }
    assert(items@.subrange(0, i as int) =~= items@);
}

/// The encodings of a prefix are no longer than those of the whole.
proof fn lemma_emit_all_prefix<T: Emit>(s: Seq<T>, k: int)
    requires
        0 <= k <= s.len(),
    ensures
        emit_all(s.subrange(0, k)).len() <= emit_all(s).len(),
    decreases s.len() - k,
{
    if k < s.len() {
        lemma_emit_all_prefix(s, k + 1);
        assert(s.subrange(0, k + 1).drop_last() =~= s.subrange(0, k));
    } else {
        assert(s.subrange(0, k) =~= s);
    }
}

impl<'pa, T: Absorb<'pa>> Absorb<'pa> for Collection<T> {
    type Model = Seq<T::Model>;

    open spec fn model(&self) -> Seq<T::Model> {
        models(self.0@)
    }

    open spec fn spec_absorb(input: Seq<u8>, limit: Limit) -> Result<
        (nat, Seq<T::Model>),
        ParseError,
    > {
        match spec_bounded_fold::<T>(input, limit) {
            Err(e) => Err(e),
            Ok(v) => Ok((input.len(), v)),
        }
    }

    fn absorb(input: &'pa [u8], limit: &Limit) -> (r: Result<
        (&'pa [u8], Collection<T>),
        ParseError,
    >) {
        match fold(input, limit) {
            Err(e) => Err(e),
            Ok(v) => {
                let rest = slice_subrange(input, input.len(), input.len());
                assert(rest@ =~= input@.subrange(input@.len() as int, input@.len() as int));
                Ok((rest, Collection(v)))
            },
        }
    }
}

impl<T: Emit> Emit for Collection<T> {
    /// The elements' encodings, with no length before them.
    open spec fn spec_emit(&self) -> Seq<u8> {
        emit_all(self.0@)
    }

    fn emit<W: RadiationBuffer>(&self, buffer: &mut W) {
        emit_each(self.0.as_slice(), buffer);
    }
}

/// Relies on Vec::into_boxed_slice: the boxed slice holds the vector's
/// elements in order.
#[verifier::external_body]
fn boxed_slice<T>(v: Vec<T>) -> (r: Box<[T]>)
    ensures
        r@ == v@,
{
    v.into_boxed_slice()
}

/// A boxed slice is decoded as a `Collection`: the bounded fold over the rest
/// of the input, with no length of its own.
impl<'pa, T: Absorb<'pa>> Absorb<'pa> for Box<[T]> {
    type Model = Seq<T::Model>;

    open spec fn model(&self) -> Seq<T::Model> {
        models(self@)
    }

    open spec fn spec_absorb(input: Seq<u8>, limit: Limit) -> Result<
        (nat, Seq<T::Model>),
        ParseError,
    > {
        match spec_bounded_fold::<T>(input, limit) {
            Err(e) => Err(e),
            Ok(v) => Ok((input.len(), v)),
        }
    }

    fn absorb(input: &'pa [u8], limit: &Limit) -> (r: Result<(&'pa [u8], Box<[T]>), ParseError>) {
        match fold(input, limit) {
            Err(e) => Err(e),
            Ok(v) => {
                let rest = slice_subrange(input, input.len(), input.len());
                assert(rest@ =~= input@.subrange(input@.len() as int, input@.len() as int));
                Ok((rest, boxed_slice(v)))
            },
        }
    }
}

impl<T: Emit> Emit for Box<[T]> {
    /// The elements' encodings, with no length before them.
    open spec fn spec_emit(&self) -> Seq<u8> {
        emit_all(self@)
    }

    fn emit<W: RadiationBuffer>(&self, buffer: &mut W) {
        emit_each(&**self, buffer);
    }
}

impl<'pa, T: Absorb<'pa>> Absorb<'pa> for Vec<T> {
    type Model = Seq<T::Model>;

    open spec fn model(&self) -> Seq<T::Model> {
        models(self@)
    }

    /// A size field under the bound, then the bounded fold over exactly that
    /// frame.
    open spec fn spec_absorb(input: Seq<u8>, limit: Limit) -> Result<
        (nat, Seq<T::Model>),
        ParseError,
    > {
        match spec_frame(input, limit) {
            Err(e) => Err(e),
            Ok(frame) => match spec_bounded_fold::<T>(frame, limit) {
                Err(e) => Err(e),
                Ok(v) => Ok((4 + frame.len(), v)),
            },
        }
    }

    fn absorb(input: &'pa [u8], limit: &Limit) -> (r: Result<(&'pa [u8], Vec<T>), ParseError>) {
        match absorb_frame(input, limit) {
            Err(e) => Err(e),
            Ok((frame, rest)) => match fold(frame, limit) {
                Err(e) => Err(e),
                Ok(v) => {
                    assert(rest@ =~= input@.subrange(
                        input@.len() - rest@.len(),
                        input@.len() as int,
                    ));
                    Ok((rest, v))
                },
            },
        }
    }
}

impl<T: Emit> Emit for Vec<T> {
    /// The byte length of the elements' encodings, then those encodings.
    open spec fn spec_emit(&self) -> Seq<u8> {
        frame_header(emit_all(self@).len()) + emit_all(self@)
    }

    /// Writes a placeholder length, the elements, then patches the length in.
    fn emit<W: RadiationBuffer>(&self, buffer: &mut W) {
        let pos = buffer.pos();
        put_u32(0, buffer);
        emit_each(self.as_slice(), buffer);
        let len = buffer.pos() - pos - 4;
        #[verifier::truncate]
        let header = len as u32;
        let bytes = be_bytes_u32(header);
        buffer.write_at(pos, &bytes);
        assert(final(buffer).contents() =~= old(buffer).contents() + self.spec_emit());
    }
}

} // verus!
