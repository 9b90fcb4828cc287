use vstd::prelude::*;

use crate::buffer::RadiationBuffer;

verus! {

/// A type that can be encoded by appending bytes to a buffer.
///
/// `spec_emit` is the exact byte string that a value encodes to. Every type
/// of this library states it; a type written elsewhere may keep the default,
/// of which nothing is known.
pub trait Emit {
    closed spec fn spec_emit(&self) -> Seq<u8> {
        arbitrary()
    }

    /// Appends the encoding of `self` to `buffer`.
    fn emit<W: RadiationBuffer>(&self, buffer: &mut W)
        requires
            old(buffer).contents().len() + self.spec_emit().len() <= old(buffer).capacity(),
        ensures
            final(buffer).contents() == old(buffer).contents() + self.spec_emit(),
            final(buffer).capacity() == old(buffer).capacity(),
    ;

    /// Appends the encoding of `self` to `buffer` and hands the buffer back.
    fn chain<W: RadiationBuffer>(&self, buffer: W) -> (r: W)
        requires
            buffer.contents().len() + self.spec_emit().len() <= buffer.capacity(),
        ensures
            r.contents() == buffer.contents() + self.spec_emit(),
    {
        let mut buffer = buffer;
        self.emit(&mut buffer);
        buffer
    }
}

} // verus!
