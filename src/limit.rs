use vstd::prelude::*;

verus! {

/// A size that fell outside the range `[minimum, maximum]` of a bound.
#[derive(Debug, Clone, Copy, PartialEq, Eq)]
pub struct LimitError {
    pub minimum: usize,
    pub maximum: usize,
    pub actual: usize,
}

/// A declared bound: the inclusive range `[lower, upper]`, a description that
/// errors carry, the bound for what is nested inside a length-framed region
/// (`inner`) and the bound for the field that follows (`next`).
#[derive(Debug)]
pub struct LimitDescriptor {
    pub lower: usize,
    pub upper: usize,
    pub description: &'static str,
    pub inner: Limit,
    pub next: Limit,
}

/// A bound on a byte length or an element count, checked while decoding.
///
/// `Unlimited` admits every size and is its own inner and next bound, so a
/// chain of bounds always ends in it.
#[derive(Debug)]
pub enum Limit {
    Unlimited,
    Bounded(Box<LimitDescriptor>),
}

impl Limit {
    pub open spec fn spec_lower(&self) -> usize {
        match self {
            Limit::Unlimited => 0,
            Limit::Bounded(d) => d.lower,
        }
    }

    pub open spec fn spec_upper(&self) -> usize {
        match self {
            Limit::Unlimited => usize::MAX,
            Limit::Bounded(d) => d.upper,
        }
    }

    pub open spec fn spec_description(&self) -> &'static str {
        match self {
            Limit::Unlimited => "unlimited",
            Limit::Bounded(d) => d.description,
        }
    }

    pub open spec fn spec_inner(&self) -> Limit {
        match self {
            Limit::Unlimited => Limit::Unlimited,
            Limit::Bounded(d) => d.inner,
        }
    }

    pub open spec fn spec_next(&self) -> Limit {
        match self {
            Limit::Unlimited => Limit::Unlimited,
            Limit::Bounded(d) => d.next,
        }
    }

    /// What `check(size)` returns: the size when it lies in the range, else
    /// the error that names the range.
    pub open spec fn spec_check(&self, size: usize) -> Result<usize, LimitError> {
        if self.spec_lower() <= size <= self.spec_upper() {
            Ok(size)
        } else {
            Err(LimitError { minimum: self.spec_lower(), maximum: self.spec_upper(), actual: size })
        }
    }

    /// A bound with the given range and description, and the bounds for
    /// what is nested inside a frame and for the field that follows.
    pub fn new(
        lower: usize,
        upper: usize,
        description: &'static str,
        inner: Limit,
        next: Limit,
    ) -> (r: Limit)
        ensures
            r == Limit::Bounded(
                Box::new(LimitDescriptor { lower, upper, description, inner, next }),
            ),
    {
        Limit::Bounded(Box::new(LimitDescriptor { lower, upper, description, inner, next }))
    }

    pub fn lower(&self) -> (r: usize)
        ensures
            r == self.spec_lower(),
    {
        match self {
            Limit::Unlimited => 0,
            Limit::Bounded(d) => d.lower,
        }
    }

    pub fn upper(&self) -> (r: usize)
        ensures
            r == self.spec_upper(),
    {
        match self {
            Limit::Unlimited => usize::MAX,
            Limit::Bounded(d) => d.upper,
        }
    }

    pub fn description(&self) -> (r: &'static str)
        ensures
            r == self.spec_description(),
    {
        match self {
            Limit::Unlimited => "unlimited",
            Limit::Bounded(d) => d.description,
        }
    }

    pub fn inner(&self) -> (r: &Limit)
        ensures
            *r == self.spec_inner(),
    {
        match self {
            Limit::Unlimited => self,
            Limit::Bounded(d) => &d.inner,
        }
    }

    pub fn next(&self) -> (r: &Limit)
        ensures
            *r == self.spec_next(),
    {
        match self {
            Limit::Unlimited => self,
            Limit::Bounded(d) => &d.next,
        }
    }

    pub fn check(&self, size: usize) -> (r: Result<usize, LimitError>)
        ensures
            r == self.spec_check(size),
    {
        let lower = self.lower();
        let upper = self.upper();
        if size <= upper && size >= lower {
            Ok(size)
        } else {
            Err(LimitError { minimum: lower, maximum: upper, actual: size })
        }
    }
}

/// The bound that field `i` of a record is decoded under, when the record is
/// decoded under `limit` and its fields name the bounds in `explicit` (or
/// none): a field without one takes the `next` of the previous field's bound,
/// and the first field takes `limit`.
pub open spec fn spec_field_limit(limit: Limit, explicit: Seq<Option<&Limit>>, i: int) -> Limit
    decreases i,
{
    if i < 0 || i >= explicit.len() {
        limit
    } else {
        match explicit[i] {
            Some(l) => *l,
            None => if i == 0 {
                limit
            } else {
                spec_field_limit(limit, explicit, i - 1).spec_next()
            },
        }
    }
}

/// The bounds of the fields of a record decoded under `limit`, in order.
pub fn field_limits<'a>(limit: &'a Limit, explicit: &[Option<&'a Limit>]) -> (r: Vec<&'a Limit>)
    ensures
        r@.len() == explicit@.len(),
        forall|i: int|
            0 <= i < explicit@.len() ==> *r@[i] == #[trigger] spec_field_limit(
                *limit,
                explicit@,
                i,
            ),
{
    let mut r: Vec<&'a Limit> = Vec::new();
    let mut i: usize = 0;
    while i < explicit.len()
        invariant
            0 <= i <= explicit@.len(),
            r@.len() == i,
            forall|k: int|
                0 <= k < i ==> *r@[k] == #[trigger] spec_field_limit(*limit, explicit@, k),
        decreases explicit@.len() - i,
    {
        let field: &'a Limit = match explicit[i] {
            Some(l) => l,
            None => if i == 0 {
                limit
            } else {
                let prev: &'a Limit = r[i - 1];
                assert(*prev == spec_field_limit(*limit, explicit@, i - 1));
                prev.next()
            },
        };
        assert(*field == spec_field_limit(*limit, explicit@, i as int));
        r.push(field);
        i = i + 1;
    }
    r
}

} // verus!
