use vstd::prelude::*;

use crate::absorb::Absorb;
use crate::buffer::RadiationBuffer;
use crate::emit::Emit;
use crate::error::{fail, ParseError, ParseErrorKind};
use crate::limit::Limit;
use core::marker::PhantomData;
use vstd::slice::slice_subrange;

verus! {

/// The sentinel that encodes `true`, a present option and the success arm.
pub const TRUE_BYTE: u8 = 0xff;

/// The sentinel that encodes `false` and an absent option.
pub const FALSE_BYTE: u8 = 0x00;

/// The sentinel that encodes the failure arm of a two-armed result.
pub const ERR_BYTE: u8 = 0xfe;

/// Appends one byte.
fn put_byte<W: RadiationBuffer>(byte: u8, buffer: &mut W)
    requires
        old(buffer).contents().len() + 1 <= old(buffer).capacity(),
    ensures
        final(buffer).contents() == old(buffer).contents().push(byte),
        final(buffer).capacity() == old(buffer).capacity(),
{
    let bytes = [byte];
    buffer.extend(&bytes);
    assert(old(buffer).contents() + bytes@ =~= old(buffer).contents().push(byte));
}

impl<'pa> Absorb<'pa> for () {
    type Model = ();

    open spec fn model(&self) -> () {
        ()
    }

    open spec fn spec_absorb(input: Seq<u8>, limit: Limit) -> Result<(nat, ()), ParseError> {
        Ok((0, ()))
    }

    fn absorb(input: &'pa [u8], limit: &Limit) -> (r: Result<(&'pa [u8], ()), ParseError>) {
        assert(input@.subrange(0, input@.len() as int) =~= input@);
        Ok((input, ()))
    }
}

impl Emit for () {
    open spec fn spec_emit(&self) -> Seq<u8> {
        Seq::empty()
    }

    fn emit<W: RadiationBuffer>(&self, buffer: &mut W) {
        assert(buffer.contents() + Seq::<u8>::empty() =~= buffer.contents());
    }
}

impl<'pa, T> Absorb<'pa> for PhantomData<T> {
    type Model = ();

    open spec fn model(&self) -> () {
        ()
    }

    open spec fn spec_absorb(input: Seq<u8>, limit: Limit) -> Result<(nat, ()), ParseError> {
        Ok((0, ()))
    }

    fn absorb(input: &'pa [u8], limit: &Limit) -> (r: Result<
        (&'pa [u8], PhantomData<T>),
        ParseError,
    >) {
        assert(input@.subrange(0, input@.len() as int) =~= input@);
        Ok((input, PhantomData))
    }
}

impl<T> Emit for PhantomData<T> {
    open spec fn spec_emit(&self) -> Seq<u8> {
        Seq::empty()
    }

    fn emit<W: RadiationBuffer>(&self, buffer: &mut W) {
        assert(buffer.contents() + Seq::<u8>::empty() =~= buffer.contents());
    }
}

impl<'pa> Absorb<'pa> for bool {
    type Model = bool;

    open spec fn model(&self) -> bool {
        *self
    }

    /// Only the two sentinel bytes are admitted; any other byte fails.
    open spec fn spec_absorb(input: Seq<u8>, limit: Limit) -> Result<(nat, bool), ParseError> {
        if input.len() < 1 {
            Err(fail(input.len() as usize, ParseErrorKind::Eof))
        } else if input[0] == FALSE_BYTE {
            Ok((1, false))
        } else if input[0] == TRUE_BYTE {
            Ok((1, true))
        } else {
            Err(fail(input.len() as usize, ParseErrorKind::Tag))
        }
    }

    fn absorb(input: &'pa [u8], limit: &Limit) -> (r: Result<(&'pa [u8], bool), ParseError>) {
        if input.len() < 1 {
            Err(ParseErrorKind::Eof.error(input.len()))
        } else if input[0] == FALSE_BYTE {
            Ok((slice_subrange(input, 1, input.len()), false))
        } else if input[0] == TRUE_BYTE {
            Ok((slice_subrange(input, 1, input.len()), true))
        } else {
            Err(ParseErrorKind::Tag.error(input.len()))
        }
    }
}

impl Emit for bool {
    open spec fn spec_emit(&self) -> Seq<u8> {
        if *self {
            seq![TRUE_BYTE]
        } else {
            seq![FALSE_BYTE]
        }
    }

    fn emit<W: RadiationBuffer>(&self, buffer: &mut W) {
        let byte = if *self {
            TRUE_BYTE
        } else {
            FALSE_BYTE
        };
        put_byte(byte, buffer);
        assert(seq![byte] =~= self.spec_emit());
    }
}

impl<'pa, const S: usize> Absorb<'pa> for [u8; S] {
    type Model = Seq<u8>;

    open spec fn model(&self) -> Seq<u8> {
        self@
    }

    open spec fn spec_absorb(input: Seq<u8>, limit: Limit) -> Result<(nat, Seq<u8>), ParseError> {
        if input.len() < S {
            Err(fail(input.len() as usize, ParseErrorKind::Eof))
        } else {
            Ok((S as nat, input.subrange(0, S as int)))
        }
    }

    fn absorb(input: &'pa [u8], limit: &Limit) -> (r: Result<(&'pa [u8], [u8; S]), ParseError>) {
        if input.len() < S {
            Err(ParseErrorKind::Eof.error(input.len()))
        } else {
            let mut bytes = [0u8; S];
            let mut i: usize = 0;
            while i < S
                invariant
                    S <= input@.len(),
                    bytes@.len() == S,
                    0 <= i <= S,
                    forall|k: int| 0 <= k < i ==> bytes@[k] == input@[k],
                decreases S - i,
            {
                bytes[i] = input[i];
                i = i + 1;
            }
            assert(bytes@ =~= input@.subrange(0, S as int));
            Ok((slice_subrange(input, S, input.len()), bytes))
        }
    }
}

impl<const S: usize> Emit for [u8; S] {
    open spec fn spec_emit(&self) -> Seq<u8> {
        self@
    }

    fn emit<W: RadiationBuffer>(&self, buffer: &mut W) {
        buffer.extend(self.as_slice());
    }
}

impl<'pa, A: Absorb<'pa>, B: Absorb<'pa>> Absorb<'pa> for (A, B) {
    type Model = (A::Model, B::Model);

    open spec fn model(&self) -> (A::Model, B::Model) {
        (self.0.model(), self.1.model())
    }

    /// The first component, then the second from the bytes that follow, both
    /// under the same bound.
    open spec fn spec_absorb(input: Seq<u8>, limit: Limit) -> Result<
        (nat, (A::Model, B::Model)),
        ParseError,
    > {
        match A::spec_absorb(input, limit) {
            Err(e) => Err(e),
            Ok((n1, a)) => match B::spec_absorb(
                input.subrange(n1 as int, input.len() as int),
                limit,
            ) {
                Err(e) => Err(e),
                Ok((n2, b)) => Ok((n1 + n2, (a, b))),
            },
        }
    }

    fn absorb(input: &'pa [u8], limit: &Limit) -> (r: Result<(&'pa [u8], (A, B)), ParseError>) {
        match A::absorb(input, limit) {
            Err(e) => Err(e),
            Ok((rest, a)) => match B::absorb(rest, limit) {
                Err(e) => Err(e),
                Ok((tail, b)) => {
                    assert(tail@ =~= input@.subrange(
                        input@.len() - tail@.len(),
                        input@.len() as int,
                    ));
                    Ok((tail, (a, b)))
                },
            },
        }
    }
}

impl<A: Emit, B: Emit> Emit for (A, B) {
    open spec fn spec_emit(&self) -> Seq<u8> {
        self.0.spec_emit() + self.1.spec_emit()
    }

    fn emit<W: RadiationBuffer>(&self, buffer: &mut W) {
        let ghost before = buffer.contents();
        self.0.emit(buffer);
        self.1.emit(buffer);
        assert(buffer.contents() =~= before + self.spec_emit());
    }
}

impl<'pa, T: Absorb<'pa>> Absorb<'pa> for Option<T> {
    type Model = Option<T::Model>;

    open spec fn model(&self) -> Option<T::Model> {
        match self {
            None => None,
            Some(v) => Some(v.model()),
        }
    }

    /// A `false` sentinel for absence, a `true` sentinel and the value for
    /// presence.
    open spec fn spec_absorb(input: Seq<u8>, limit: Limit) -> Result<
        (nat, Option<T::Model>),
        ParseError,
    > {
        if input.len() < 1 {
            Err(fail(input.len() as usize, ParseErrorKind::Eof))
        } else if input[0] == FALSE_BYTE {
            Ok((1, None))
        } else if input[0] == TRUE_BYTE {
            match T::spec_absorb(input.subrange(1, input.len() as int), limit) {
                Err(e) => Err(e),
                Ok((n, v)) => Ok((n + 1, Some(v))),
            }
        } else {
            Err(fail(input.len() as usize, ParseErrorKind::Tag))
        }
    }

    fn absorb(input: &'pa [u8], limit: &Limit) -> (r: Result<(&'pa [u8], Option<T>), ParseError>) {
        if input.len() < 1 {
            Err(ParseErrorKind::Eof.error(input.len()))
        } else if input[0] == FALSE_BYTE {
            Ok((slice_subrange(input, 1, input.len()), None))
        } else if input[0] == TRUE_BYTE {
            match T::absorb(slice_subrange(input, 1, input.len()), limit) {
                Err(e) => Err(e),
                Ok((tail, v)) => {
                    assert(tail@ =~= input@.subrange(
                        input@.len() - tail@.len(),
                        input@.len() as int,
                    ));
                    Ok((tail, Some(v)))
                },
            }
        } else {
            Err(ParseErrorKind::Tag.error(input.len()))
        }
    }
}

impl<T: Emit> Emit for Option<T> {
    open spec fn spec_emit(&self) -> Seq<u8> {
        match self {
            None => seq![FALSE_BYTE],
            Some(v) => seq![TRUE_BYTE] + v.spec_emit(),
        }
    }

    fn emit<W: RadiationBuffer>(&self, buffer: &mut W) {
        let ghost before = buffer.contents();
        match self {
            None => false.emit(buffer),
            Some(v) => {
                true.emit(buffer);
                v.emit(buffer);
            },
        }
        assert(buffer.contents() =~= before + self.spec_emit());
    }
}

impl<'pa, T: Absorb<'pa>, E: Absorb<'pa>> Absorb<'pa> for Result<T, E> {
    type Model = Result<T::Model, E::Model>;

    open spec fn model(&self) -> Result<T::Model, E::Model> {
        match self {
            Ok(v) => Ok(v.model()),
            Err(v) => Err(v.model()),
        }
    }

    /// A `true` sentinel and the success arm, or the failure sentinel and the
    /// failure arm.
    open spec fn spec_absorb(input: Seq<u8>, limit: Limit) -> Result<
        (nat, Result<T::Model, E::Model>),
        ParseError,
    > {
        if input.len() < 1 {
            Err(fail(input.len() as usize, ParseErrorKind::Eof))
        } else if input[0] == TRUE_BYTE {
            match T::spec_absorb(input.subrange(1, input.len() as int), limit) {
                Err(e) => Err(e),
                Ok((n, v)) => Ok((n + 1, Ok(v))),
            }
        } else if input[0] == ERR_BYTE {
            match E::spec_absorb(input.subrange(1, input.len() as int), limit) {
                Err(e) => Err(e),
                Ok((n, v)) => Ok((n + 1, Err(v))),
            }
        } else {
            Err(fail(input.len() as usize, ParseErrorKind::Tag))
        }
    }

    fn absorb(input: &'pa [u8], limit: &Limit) -> (r: Result<
        (&'pa [u8], Result<T, E>),
        ParseError,
    >) {
        if input.len() < 1 {
            Err(ParseErrorKind::Eof.error(input.len()))
        } else if input[0] == TRUE_BYTE {
            match T::absorb(slice_subrange(input, 1, input.len()), limit) {
                Err(e) => Err(e),
                Ok((tail, v)) => {
                    assert(tail@ =~= input@.subrange(
                        input@.len() - tail@.len(),
                        input@.len() as int,
                    ));
                    Ok((tail, Ok(v)))
                },
            }
        } else if input[0] == ERR_BYTE {
            match E::absorb(slice_subrange(input, 1, input.len()), limit) {
                Err(e) => Err(e),
                Ok((tail, v)) => {
                    assert(tail@ =~= input@.subrange(
                        input@.len() - tail@.len(),
                        input@.len() as int,
                    ));
                    Ok((tail, Err(v)))
                },
            }
        } else {
            Err(ParseErrorKind::Tag.error(input.len()))
        }
    }
}

impl<T: Emit, E: Emit> Emit for Result<T, E> {
    open spec fn spec_emit(&self) -> Seq<u8> {
        match self {
            Ok(v) => seq![TRUE_BYTE] + v.spec_emit(),
            Err(v) => seq![ERR_BYTE] + v.spec_emit(),
        }
    }

    fn emit<W: RadiationBuffer>(&self, buffer: &mut W) {
        let ghost before = buffer.contents();
        match self {
            Ok(v) => {
                put_byte(TRUE_BYTE, buffer);
                v.emit(buffer);
            },
            Err(v) => {
                put_byte(ERR_BYTE, buffer);
                v.emit(buffer);
            },
        }
        assert(buffer.contents() =~= before + self.spec_emit());
    }
}

impl<'pa, T: Absorb<'pa>> Absorb<'pa> for Box<T> {
    type Model = T::Model;

    open spec fn model(&self) -> T::Model {
        (**self).model()
    }

    open spec fn spec_absorb(input: Seq<u8>, limit: Limit) -> Result<(nat, T::Model), ParseError> {
        T::spec_absorb(input, limit)
    }

    fn absorb(input: &'pa [u8], limit: &Limit) -> (r: Result<(&'pa [u8], Box<T>), ParseError>) {
        match T::absorb(input, limit) {
            Err(e) => Err(e),
            Ok((tail, v)) => Ok((tail, Box::new(v))),
        }
    }
}

impl<T: Emit> Emit for Box<T> {
    open spec fn spec_emit(&self) -> Seq<u8> {
        (**self).spec_emit()
    }

    fn emit<W: RadiationBuffer>(&self, buffer: &mut W) {
        (**self).emit(buffer);
    }
}

} // verus!
