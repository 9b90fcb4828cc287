use vstd::prelude::*;

use crate::error::ParseError;
use crate::limit::Limit;

verus! {

/// A type that can be decoded from the front of a byte slice.
///
/// `Model` is what a decoded value means, `spec_absorb` says exactly what a
/// decode of `input` under a bound yields: how many bytes it consumes and the
/// model of the value, or the error. Every type of this library states both;
/// a type written elsewhere may keep the defaults, of which nothing is known.
pub trait Absorb<'pa>: Sized {
    type Model;

    closed spec fn model(&self) -> Self::Model {
        arbitrary()
    }

    closed spec fn spec_absorb(input: Seq<u8>, limit: Limit) -> Result<
        (nat, Self::Model),
        ParseError,
    > {
        arbitrary()
    }

    /// Decodes a value from the front of `input` under `limit`, and hands back
    /// the bytes that follow it.
    fn absorb(input: &'pa [u8], limit: &Limit) -> (r: Result<(&'pa [u8], Self), ParseError>)
        ensures
            match r {
                Ok((rest, v)) => {
                    &&& rest@.len() <= input@.len()
                    &&& rest@ == input@.subrange(
                        input@.len() - rest@.len(),
                        input@.len() as int,
                    )
                    &&& Self::spec_absorb(input@, *limit) == Ok::<(nat, Self::Model), ParseError>(
                        ((input@.len() - rest@.len()) as nat, v.model()),
                    )
                },
                Err(e) => Self::spec_absorb(input@, *limit) == Err::<
                    (nat, Self::Model),
                    ParseError,
                >(e),
            },
    ;
}

/// Decoding a whole value with no bound, keeping only the value.
pub trait AbsorbExt<'pa>: Sized {
    fn absorb_ext(input: &'pa [u8]) -> (r: Result<Self, ParseError>);
}

impl<'pa, T: Absorb<'pa>> AbsorbExt<'pa> for T {
    fn absorb_ext(input: &'pa [u8]) -> (r: Result<Self, ParseError>)
        ensures
            match r {
                Ok(v) => T::spec_absorb(input@, Limit::Unlimited) matches Ok((_, m)) && m
                    == v.model(),
                Err(e) => T::spec_absorb(input@, Limit::Unlimited) == Err::<
                    (nat, T::Model),
                    ParseError,
                >(e),
            },
    {
        let unlimited = Limit::Unlimited;
        match T::absorb(input, &unlimited) {
            Ok((_, v)) => Ok(v),
            Err(e) => Err(e),
        }
    }
}

} // verus!
