use vstd::prelude::*;

use crate::absorb::Absorb;
use crate::buffer::RadiationBuffer;
use crate::emit::Emit;
use crate::error::ParseError;
use crate::limit::Limit;
use bytes::BytesMut;
use core::marker::PhantomData;

verus! {

#[verifier::external_type_specification]
#[verifier::external_body]
pub struct ExBytesMut(BytesMut);

/// The bytes that a `BytesMut` holds.
pub uninterp spec fn held(b: BytesMut) -> Seq<u8>;

/// Relies on BytesMut::len: the number of bytes held.
#[verifier::external_body]
fn held_len(b: &BytesMut) -> (r: usize)
    ensures
        r == held(*b).len(),
{
    b.len()
}

/// Relies on BytesMut::extend_from_slice: the bytes are appended; it panics
/// only when the new length overflows `usize`.
#[verifier::external_body]
fn append(b: &mut BytesMut, data: &[u8])
    requires
        held(*old(b)).len() + data@.len() <= usize::MAX,
    ensures
        held(*final(b)) == held(*old(b)) + data@,
{
    b.extend_from_slice(data)
}

/// Relies on BytesMut's DerefMut, which hands out the bytes held, and on
/// slice::copy_from_slice: the range `pos..pos + data.len()` is overwritten.
#[verifier::external_body]
fn overwrite(b: &mut BytesMut, pos: usize, data: &[u8])
    requires
        pos + data@.len() <= held(*old(b)).len(),
    ensures
        held(*final(b)) == held(*old(b)).subrange(0, pos as int) + data@ + held(*old(b)).subrange(
            pos + data@.len(),
            held(*old(b)).len() as int,
        ),
{
    b[pos..pos + data.len()].copy_from_slice(data)
}

impl RadiationBuffer for BytesMut {
    open spec fn contents(&self) -> Seq<u8> {
        held(*self)
    }

    open spec fn capacity(&self) -> nat {
        usize::MAX as nat
    }

    fn pos(&self) -> (r: usize) {
        held_len(self)
    }

    fn write_at(&mut self, pos: usize, data: &[u8]) {
        overwrite(self, pos, data);
    }

    fn extend(&mut self, data: &[u8]) {
        append(self, data);
    }
}

/// Decodes values of `T` one after another from a growing byte stream, and
/// encodes them onto one.
pub struct Codec<T>(PhantomData<T>);

impl<T> Codec<T> {
    pub fn new() -> (r: Self)
    {
        Codec(PhantomData)
    }

    /// Decodes one value from the front of `src` with no bound.
    ///
    /// `Ok(Some((n, v)))`: the value is `v` and its encoding is the first `n`
    /// bytes. `Ok(None)`: the bytes end before the value does, so more are
    /// needed. `Err(e)`: the bytes cannot begin a value.
    pub fn decode<'pa>(&self, src: &'pa [u8]) -> (r: Result<Option<(usize, T)>, ParseError>) where
        T: Absorb<'pa>,
        ensures
            match T::spec_absorb(src@, Limit::Unlimited) {
                Ok((n, m)) => r matches Ok(Some((k, v))) && k == n && v.model() == m,
                Err(e) => if e.kind is Eof {
                    r matches Ok(None)
                } else {
                    r matches Err(f) && f == e
                },
            },
    {
        let unlimited = Limit::Unlimited;
        match T::absorb(src, &unlimited) {
            Ok((rest, v)) => Ok(Some((src.len() - rest.len(), v))),
            Err(e) => if e.kind.is_eof() {
                Ok(None)
            } else {
                Err(e)
            },
        }
    }

    /// Appends the encoding of `item` to `dst`.
    pub fn encode<W: RadiationBuffer>(&self, item: T, dst: &mut W) where T: Emit
        requires
            old(dst).contents().len() + item.spec_emit().len() <= old(dst).capacity(),
        ensures
            final(dst).contents() == old(dst).contents() + item.spec_emit(),
    {
        item.emit(dst);
    }
}

impl<T> Default for Codec<T> {
    fn default() -> (r: Self)
    {
        Codec(PhantomData)
    }
}

} // verus!
