use vstd::prelude::*;

use crate::limit::LimitError;

verus! {

/// Why a decode failed.
#[derive(Debug, Clone, Copy, PartialEq, Eq)]
pub enum ParseErrorKind {
    /// The input ended before the value did: more bytes may complete it.
    Eof,
    /// A sentinel byte was none of those the type admits.
    Tag,
    /// A length-framed payload did not use up its frame.
    Trailing,
    /// A length-framed payload ran past the end of its complete frame; the
    /// cause follows in the chain.
    Truncated,
    /// An element of a sequence failed; the cause follows in the chain.
    Many,
    /// A size fell outside a bound, named by its description.
    Limit(LimitError, &'static str),
    /// A tagged union met a discriminant that none of its variants has.
    UnknownTag { tag: u64, hint: &'static str },
    /// A failure reported with a message (malformed text, an element that
    /// consumed nothing).
    Custom(&'static str),
}

/// A decode failure: the number of bytes of the input handed to the failing
/// decoder that were still undecoded, the kind, and the failure it wraps.
#[derive(Debug)]
pub struct ParseError {
    pub input: usize,
    pub kind: ParseErrorKind,
    pub subsequent: Option<Box<ParseError>>,
}

/// A failure of the given kind with no cause behind it.
pub open spec fn fail(input: usize, kind: ParseErrorKind) -> ParseError {
    ParseError { input, kind, subsequent: None }
}

impl ParseErrorKind {
    pub fn unknown_tag(tag: u64, hint: &'static str) -> (r: Self)
        ensures
            r == (ParseErrorKind::UnknownTag { tag, hint }),
    {
        ParseErrorKind::UnknownTag { tag, hint }
    }

    /// The failure of this kind found where `input` bytes were left.
    pub fn error(self, input: usize) -> (r: ParseError)
        ensures
            r == fail(input, self),
    {
        ParseError { input, kind: self, subsequent: None }
    }

    /// Whether the input merely ran out, so that more bytes may help.
    pub fn is_eof(&self) -> (r: bool)
        ensures
            r == (*self is Eof),
    {
        match self {
            ParseErrorKind::Eof => true,
            _ => false,
        }
    }
}

} // verus!
