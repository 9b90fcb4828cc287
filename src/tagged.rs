use vstd::prelude::*;

use crate::error::{fail, ParseError, ParseErrorKind};

verus! {

/// The discriminant of variant `i` of a tagged union whose variants give
/// the discriminants in `explicit` (or none): a variant without one takes
/// the one after its predecessor's, and the first variant defaults to zero.
pub open spec fn spec_tag(explicit: Seq<Option<u64>>, i: int) -> int
    decreases i,
{
    if i < 0 || i >= explicit.len() {
        0
    } else {
        match explicit[i] {
            Some(t) => t as int,
            None => if i == 0 {
                0
            } else {
                spec_tag(explicit, i - 1) + 1
            },
        }
    }
}

/// Whether some variant's discriminant would pass `u64::MAX`.
pub open spec fn tags_overflow(explicit: Seq<Option<u64>>) -> bool {
    exists|i: int| 0 <= i < explicit.len() && #[trigger] spec_tag(explicit, i) > u64::MAX
}

/// The discriminants of the variants, in declaration order; `None` when one
/// would pass `u64::MAX`.
pub fn variant_tags(explicit: &[Option<u64>]) -> (r: Option<Vec<u64>>)
    ensures
        r is None <==> tags_overflow(explicit@),
        r matches Some(tags) ==> tags@.len() == explicit@.len() && forall|i: int|
            0 <= i < explicit@.len() ==> tags@[i] == #[trigger] spec_tag(explicit@, i),
{
    let mut tags: Vec<u64> = Vec::new();
    let mut i: usize = 0;
    while i < explicit.len()
        invariant
            0 <= i <= explicit@.len(),
            tags@.len() == i,
            forall|k: int| 0 <= k < i ==> tags@[k] == #[trigger] spec_tag(explicit@, k),
        decreases explicit@.len() - i,
    {
        let tag = match explicit[i] {
            Some(t) => t,
            None => if i == 0 {
                0
            } else {
                let prev = tags[i - 1];
                assert(prev == spec_tag(explicit@, i - 1));
                if prev == u64::MAX {
                    assert(spec_tag(explicit@, i as int) > u64::MAX);
                    return None;
                }
                prev + 1
            },
        };
        assert(tag == spec_tag(explicit@, i as int));
        tags.push(tag);
        i = i + 1;
    }
    assert forall|k: int| 0 <= k < explicit@.len() implies #[trigger] spec_tag(explicit@, k)
        <= u64::MAX by {
        assert(tags@[k] == spec_tag(explicit@, k));
    }
    Some(tags)
}

/// Picks the variant whose discriminant is `tag`: the first in declaration
/// order. When there is none, the failure names the discriminant and the
/// union (`hint`), found where `input` bytes were left.
pub fn find_variant(tag: u64, tags: &[u64], hint: &'static str, input: usize) -> (r: Result<
    usize,
    ParseError,
>)
    ensures
        match r {
            Ok(i) => {
                &&& i < tags@.len()
                &&& tags@[i as int] == tag
                &&& forall|j: int| 0 <= j < i ==> tags@[j] != tag
            },
            Err(e) => {
                &&& forall|j: int| 0 <= j < tags@.len() ==> tags@[j] != tag
                &&& e == fail(input, ParseErrorKind::UnknownTag { tag, hint })
            },
        },
{
    let mut i: usize = 0;
    while i < tags.len()
        invariant
            0 <= i <= tags@.len(),
            forall|j: int| 0 <= j < i ==> tags@[j] != tag,
        decreases tags@.len() - i,
    {
        if tags[i] == tag {
            return Ok(i);
        }
        i = i + 1;
    }
    Err(ParseErrorKind::unknown_tag(tag, hint).error(input))
}

} // verus!
