use vstd::prelude::*;

use crate::absorb::Absorb;
use crate::buffer::RadiationBuffer;
use crate::emit::Emit;
use crate::error::{fail, ParseError, ParseErrorKind};
use crate::limit::Limit;
use vstd::slice::slice_subrange;

verus! {

impl<'pa> Absorb<'pa> for u8 {
    type Model = u8;

    open spec fn model(&self) -> u8 {
        *self
    }

    open spec fn spec_absorb(input: Seq<u8>, limit: Limit) -> Result<(nat, u8), ParseError> {
        if input.len() < 1 {
            Err(fail(input.len() as usize, ParseErrorKind::Eof))
        } else {
            Ok((1, input[0]))
        }
    }

    fn absorb(input: &'pa [u8], limit: &Limit) -> (r: Result<(&'pa [u8], u8), ParseError>) {
        if input.len() < 1 {
            Err(ParseErrorKind::Eof.error(input.len()))
        } else {
            Ok((slice_subrange(input, 1, input.len()), input[0]))
        }
    }
}

impl Emit for u8 {
    open spec fn spec_emit(&self) -> Seq<u8> {
        seq![*self]
    }

    fn emit<W: RadiationBuffer>(&self, buffer: &mut W) {
        let bytes = [*self];
        buffer.extend(&bytes);
        assert(bytes@ =~= seq![*self]);
    }
}

/// The 2 big-endian bytes of `x`.
pub open spec fn be_u16(x: u16) -> Seq<u8> {
    seq![(x >> 8) as u8, x as u8]
}

/// The `u16` whose big-endian bytes are the first 2 of `s`.
pub open spec fn from_be_u16(s: Seq<u8>) -> u16 {
    ((s[0] as u16) << 8) | (s[1] as u16)
}

pub proof fn lemma_be_u16(x: u16)
    ensures
        from_be_u16(be_u16(x)) == x,
        be_u16(x).len() == 2,
{
    assert(((((x >> 8) as u8) as u16) << 8) | ((x as u8) as u16) == x) by (bit_vector);
}

/// The 4 big-endian bytes of `x`.
pub open spec fn be_u32(x: u32) -> Seq<u8> {
    seq![(x >> 24) as u8, (x >> 16) as u8, (x >> 8) as u8, x as u8]
}

/// The `u32` whose big-endian bytes are the first 4 of `s`.
pub open spec fn from_be_u32(s: Seq<u8>) -> u32 {
    ((s[0] as u32) << 24) | ((s[1] as u32) << 16) | ((s[2] as u32) << 8) | (s[3] as u32)
}

pub proof fn lemma_be_u32(x: u32)
    ensures
        from_be_u32(be_u32(x)) == x,
        be_u32(x).len() == 4,
{
    assert(
        ((((x >> 24) as u8) as u32) << 24)
        | ((((x >> 16) as u8) as u32) << 16)
        | ((((x >> 8) as u8) as u32) << 8)
        | ((x as u8) as u32)
            == x) by (bit_vector);
}

/// The 8 big-endian bytes of `x`.
pub open spec fn be_u64(x: u64) -> Seq<u8> {
    seq![
        (x >> 56) as u8,
        (x >> 48) as u8,
        (x >> 40) as u8,
        (x >> 32) as u8,
        (x >> 24) as u8,
        (x >> 16) as u8,
        (x >> 8) as u8,
        x as u8,
    ]
}

/// The `u64` whose big-endian bytes are the first 8 of `s`.
pub open spec fn from_be_u64(s: Seq<u8>) -> u64 {
    ((s[0] as u64) << 56)
        | ((s[1] as u64) << 48)
        | ((s[2] as u64) << 40)
        | ((s[3] as u64) << 32)
        | ((s[4] as u64) << 24)
        | ((s[5] as u64) << 16)
        | ((s[6] as u64) << 8)
        | (s[7] as u64)
}

pub proof fn lemma_be_u64(x: u64)
    ensures
        from_be_u64(be_u64(x)) == x,
        be_u64(x).len() == 8,
{
    assert(
        ((((x >> 56) as u8) as u64) << 56)
        | ((((x >> 48) as u8) as u64) << 48)
        | ((((x >> 40) as u8) as u64) << 40)
        | ((((x >> 32) as u8) as u64) << 32)
        | ((((x >> 24) as u8) as u64) << 24)
        | ((((x >> 16) as u8) as u64) << 16)
        | ((((x >> 8) as u8) as u64) << 8)
        | ((x as u8) as u64)
            == x) by (bit_vector);
}

impl<'pa> Absorb<'pa> for u16 {
    type Model = u16;

    open spec fn model(&self) -> u16 {
        *self
    }

    open spec fn spec_absorb(input: Seq<u8>, limit: Limit) -> Result<(nat, u16), ParseError> {
        if input.len() < 2 {
            Err(fail(input.len() as usize, ParseErrorKind::Eof))
        } else {
            Ok((2, from_be_u16(input)))
        }
    }

    fn absorb(input: &'pa [u8], limit: &Limit) -> (r: Result<(&'pa [u8], u16), ParseError>) {
        if input.len() < 2 {
            Err(ParseErrorKind::Eof.error(input.len()))
        } else {
            let v = ((input[0] as u16) << 8) | (input[1] as u16);
            Ok((slice_subrange(input, 2, input.len()), v))
        }
    }
}

impl Emit for u16 {
    open spec fn spec_emit(&self) -> Seq<u8> {
        be_u16(*self)
    }

    fn emit<W: RadiationBuffer>(&self, buffer: &mut W) {
        let bytes = [(*self >> 8) as u8, *self as u8];
        buffer.extend(&bytes);
        assert(bytes@ =~= be_u16(*self));
    }
}

impl<'pa> Absorb<'pa> for u32 {
    type Model = u32;

    open spec fn model(&self) -> u32 {
        *self
    }

    open spec fn spec_absorb(input: Seq<u8>, limit: Limit) -> Result<(nat, u32), ParseError> {
        if input.len() < 4 {
            Err(fail(input.len() as usize, ParseErrorKind::Eof))
        } else {
            Ok((4, from_be_u32(input)))
        }
    }

    fn absorb(input: &'pa [u8], limit: &Limit) -> (r: Result<(&'pa [u8], u32), ParseError>) {
        if input.len() < 4 {
            Err(ParseErrorKind::Eof.error(input.len()))
        } else {
            let v = ((input[0] as u32) << 24)
                | ((input[1] as u32) << 16)
                | ((input[2] as u32) << 8)
                | (input[3] as u32);
            Ok((slice_subrange(input, 4, input.len()), v))
        }
    }
}

impl Emit for u32 {
    open spec fn spec_emit(&self) -> Seq<u8> {
        be_u32(*self)
    }

    fn emit<W: RadiationBuffer>(&self, buffer: &mut W) {
        let bytes = [(*self >> 24) as u8, (*self >> 16) as u8, (*self >> 8) as u8, *self as u8];
        buffer.extend(&bytes);
        assert(bytes@ =~= be_u32(*self));
    }
}

impl<'pa> Absorb<'pa> for u64 {
    type Model = u64;

    open spec fn model(&self) -> u64 {
        *self
    }

    open spec fn spec_absorb(input: Seq<u8>, limit: Limit) -> Result<(nat, u64), ParseError> {
        if input.len() < 8 {
            Err(fail(input.len() as usize, ParseErrorKind::Eof))
        } else {
            Ok((8, from_be_u64(input)))
        }
    }

    fn absorb(input: &'pa [u8], limit: &Limit) -> (r: Result<(&'pa [u8], u64), ParseError>) {
        if input.len() < 8 {
            Err(ParseErrorKind::Eof.error(input.len()))
        } else {
            let v = ((input[0] as u64) << 56)
                | ((input[1] as u64) << 48)
                | ((input[2] as u64) << 40)
                | ((input[3] as u64) << 32)
                | ((input[4] as u64) << 24)
                | ((input[5] as u64) << 16)
                | ((input[6] as u64) << 8)
                | (input[7] as u64);
            Ok((slice_subrange(input, 8, input.len()), v))
        }
    }
}

impl Emit for u64 {
    open spec fn spec_emit(&self) -> Seq<u8> {
        be_u64(*self)
    }

    fn emit<W: RadiationBuffer>(&self, buffer: &mut W) {
        let bytes = [
            (*self >> 56) as u8,
            (*self >> 48) as u8,
            (*self >> 40) as u8,
            (*self >> 32) as u8,
            (*self >> 24) as u8,
            (*self >> 16) as u8,
            (*self >> 8) as u8,
            *self as u8,
        ];
        buffer.extend(&bytes);
        assert(bytes@ =~= be_u64(*self));
    }
}

impl<'pa> Absorb<'pa> for i8 {
    type Model = i8;

    open spec fn model(&self) -> i8 {
        *self
    }

    open spec fn spec_absorb(input: Seq<u8>, limit: Limit) -> Result<(nat, i8), ParseError> {
        match <u8 as Absorb<'pa>>::spec_absorb(input, limit) {
            Ok((n, v)) => Ok((n, v as i8)),
            Err(e) => Err(e),
        }
    }

    fn absorb(input: &'pa [u8], limit: &Limit) -> (r: Result<(&'pa [u8], i8), ParseError>) {
        match u8::absorb(input, limit) {
            Ok((rest, v)) => Ok((rest, v as i8)),
            Err(e) => Err(e),
        }
    }
}

impl Emit for i8 {
    open spec fn spec_emit(&self) -> Seq<u8> {
        seq![*self as u8]
    }

    fn emit<W: RadiationBuffer>(&self, buffer: &mut W) {
        (*self as u8).emit(buffer);
    }
}

impl<'pa> Absorb<'pa> for i16 {
    type Model = i16;

    open spec fn model(&self) -> i16 {
        *self
    }

    open spec fn spec_absorb(input: Seq<u8>, limit: Limit) -> Result<(nat, i16), ParseError> {
        match <u16 as Absorb<'pa>>::spec_absorb(input, limit) {
            Ok((n, v)) => Ok((n, v as i16)),
            Err(e) => Err(e),
        }
    }

    fn absorb(input: &'pa [u8], limit: &Limit) -> (r: Result<(&'pa [u8], i16), ParseError>) {
        match u16::absorb(input, limit) {
            Ok((rest, v)) => Ok((rest, v as i16)),
            Err(e) => Err(e),
        }
    }
}

impl Emit for i16 {
    open spec fn spec_emit(&self) -> Seq<u8> {
        be_u16(*self as u16)
    }

    fn emit<W: RadiationBuffer>(&self, buffer: &mut W) {
        (*self as u16).emit(buffer);
    }
}

impl<'pa> Absorb<'pa> for i32 {
    type Model = i32;

    open spec fn model(&self) -> i32 {
        *self
    }

    open spec fn spec_absorb(input: Seq<u8>, limit: Limit) -> Result<(nat, i32), ParseError> {
        match <u32 as Absorb<'pa>>::spec_absorb(input, limit) {
            Ok((n, v)) => Ok((n, v as i32)),
            Err(e) => Err(e),
        }
    }

    fn absorb(input: &'pa [u8], limit: &Limit) -> (r: Result<(&'pa [u8], i32), ParseError>) {
        match u32::absorb(input, limit) {
            Ok((rest, v)) => Ok((rest, v as i32)),
            Err(e) => Err(e),
        }
    }
}

impl Emit for i32 {
    open spec fn spec_emit(&self) -> Seq<u8> {
        be_u32(*self as u32)
    }

    fn emit<W: RadiationBuffer>(&self, buffer: &mut W) {
        (*self as u32).emit(buffer);
    }
}

impl<'pa> Absorb<'pa> for i64 {
    type Model = i64;

    open spec fn model(&self) -> i64 {
        *self
    }

    open spec fn spec_absorb(input: Seq<u8>, limit: Limit) -> Result<(nat, i64), ParseError> {
        match <u64 as Absorb<'pa>>::spec_absorb(input, limit) {
            Ok((n, v)) => Ok((n, v as i64)),
            Err(e) => Err(e),
        }
    }

    fn absorb(input: &'pa [u8], limit: &Limit) -> (r: Result<(&'pa [u8], i64), ParseError>) {
        match u64::absorb(input, limit) {
            Ok((rest, v)) => Ok((rest, v as i64)),
            Err(e) => Err(e),
        }
    }
}

impl Emit for i64 {
    open spec fn spec_emit(&self) -> Seq<u8> {
        be_u64(*self as u64)
    }

    fn emit<W: RadiationBuffer>(&self, buffer: &mut W) {
        (*self as u64).emit(buffer);
    }
}

} // verus!
