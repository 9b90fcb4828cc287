use vstd::prelude::*;

verus! {

/// A byte sink that encoders append to, which can also overwrite bytes it
/// already holds: a frame writes a placeholder length and patches it once
/// the payload is written.
pub trait RadiationBuffer {
    /// The bytes held.
    spec fn contents(&self) -> Seq<u8>;

    /// How many bytes the sink can hold in all.
    spec fn capacity(&self) -> nat;

    /// The current write position: the number of bytes held.
    fn pos(&self) -> (r: usize)
        ensures
            r == self.contents().len(),
    ;

    /// Overwrites the bytes at `pos..pos + data.len()`.
    fn write_at(&mut self, pos: usize, data: &[u8])
        requires
            pos + data@.len() <= old(self).contents().len(),
        ensures
            final(self).contents() == old(self).contents().subrange(0, pos as int) + data@
                + old(self).contents().subrange(
                pos + data@.len(),
                old(self).contents().len() as int,
            ),
            final(self).capacity() == old(self).capacity(),
    ;

    /// Appends `data`.
    fn extend(&mut self, data: &[u8])
        requires
            old(self).contents().len() + data@.len() <= old(self).capacity(),
        ensures
            final(self).contents() == old(self).contents() + data@,
            final(self).capacity() == old(self).capacity(),
    ;
}

impl RadiationBuffer for Vec<u8> {
    open spec fn contents(&self) -> Seq<u8> {
        self@
    }

    open spec fn capacity(&self) -> nat {
        usize::MAX as nat
    }

    fn pos(&self) -> (r: usize) {
        self.len()
    }

    fn write_at(&mut self, pos: usize, data: &[u8]) {
        let ghost before = self@;
        let len = self.len();
        let mut i: usize = 0;
        while i < data.len()
            invariant
                pos + data@.len() <= before.len() == len,
                self@ == before.subrange(0, pos as int) + data@.subrange(0, i as int)
                    + before.subrange(pos + i, len as int),
                0 <= i <= data@.len(),
            decreases data@.len() - i,
        {
            let ghost prev = self@;
            self.set(pos + i, data[i]);
            i = i + 1;
            assert(self@ =~= before.subrange(0, pos as int) + data@.subrange(0, i as int)
                + before.subrange(pos + i, len as int));
        }
        assert(data@.subrange(0, i as int) =~= data@);
    }

    fn extend(&mut self, data: &[u8]) {
        let ghost before = self@;
        let mut i: usize = 0;
        while i < data.len()
            invariant
                self@ == before + data@.subrange(0, i as int),
                0 <= i <= data@.len(),
            decreases data@.len() - i,
        {
            self.push(data[i]);
            i = i + 1;
            assert(self@ =~= before + data@.subrange(0, i as int));
        }
        assert(data@.subrange(0, i as int) =~= data@);
    }
}

/// A sink of fixed capacity `SIZE` that holds its bytes inline.
pub struct CsBuffer<const SIZE: usize> {
    pos: usize,
    bytes: [u8; SIZE],
}

impl<const SIZE: usize> View for CsBuffer<SIZE> {
    type V = Seq<u8>;

    closed spec fn view(&self) -> Seq<u8> {
        self.bytes@.subrange(0, self.pos as int)
    }
}

impl<const SIZE: usize> CsBuffer<SIZE> {
    #[verifier::type_invariant]
    spec fn inv(self) -> bool {
        self.pos <= SIZE
    }

    /// An empty sink.
    pub fn new() -> (r: Self)
        ensures
            r@ == Seq::<u8>::empty(),
            r.capacity() == SIZE,
    {
        CsBuffer { pos: 0, bytes: [0u8; SIZE] }
    }

    /// The bytes written so far.
    pub fn to_vec(&self) -> (r: Vec<u8>)
        ensures
            r@ == self@,
    {
        proof {
            use_type_invariant(self);
        }
        let mut r: Vec<u8> = Vec::new();
        let mut i: usize = 0;
        while i < self.pos
            invariant
                self.pos <= SIZE,
                self.bytes@.len() == SIZE,
                0 <= i <= self.pos,
                r@ == self.bytes@.subrange(0, i as int),
            decreases self.pos - i,
        {
            r.push(self.bytes[i]);
            i = i + 1;
            assert(r@ =~= self.bytes@.subrange(0, i as int));
        }
        r
    }
}

impl<const SIZE: usize> RadiationBuffer for CsBuffer<SIZE> {
    open spec fn contents(&self) -> Seq<u8> {
        self@
    }

    open spec fn capacity(&self) -> nat {
        SIZE as nat
    }

    fn pos(&self) -> (r: usize) {
        proof {
            use_type_invariant(self);
        }
        self.pos
    }

    fn write_at(&mut self, pos: usize, data: &[u8]) {
        proof {
            use_type_invariant(&*self);
        }
        let ghost before = self.bytes@;
        let mut i: usize = 0;
        while i < data.len()
            invariant
                pos + data@.len() <= self.pos <= SIZE,
                self.pos == old(self).pos,
                before.len() == SIZE,
                self.bytes@ == before.subrange(0, pos as int) + data@.subrange(0, i as int)
                    + before.subrange(pos + i, SIZE as int),
                0 <= i <= data@.len(),
            decreases data@.len() - i,
        {
            self.bytes[pos + i] = data[i];
            i = i + 1;
            assert(self.bytes@ =~= before.subrange(0, pos as int) + data@.subrange(0, i as int)
                + before.subrange(pos + i, SIZE as int));
        }
        let ghost old_view = before.subrange(0, self.pos as int);
        assert(old_view.subrange(0, pos as int) =~= before.subrange(0, pos as int));
        assert(old_view.subrange(pos + data@.len(), self.pos as int) =~= before.subrange(
            pos + data@.len(),
            self.pos as int,
        ));
        assert(self.bytes@.subrange(0, self.pos as int) =~= before.subrange(0, pos as int) + data@
            + before.subrange(pos + data@.len(), self.pos as int));
    }

    fn extend(&mut self, data: &[u8]) {
        proof {
            use_type_invariant(&*self);
        }
        let ghost before = self@;
        let mut i: usize = 0;
        while i < data.len()
            invariant
                self.pos <= SIZE,
                self.bytes@.len() == SIZE,
                before.len() + data@.len() <= SIZE,
                self.pos == before.len() + i,
                self.bytes@.subrange(0, self.pos as int) == before + data@.subrange(0, i as int),
                0 <= i <= data@.len(),
            decreases data@.len() - i,
        {
            let ghost prev = self.bytes@;
            self.bytes[self.pos] = data[i];
            self.pos = self.pos + 1;
            i = i + 1;
            assert(self.bytes@.subrange(0, self.pos as int) =~= prev.subrange(0, self.pos - 1)
                .push(data@[i - 1]));
            assert(self.bytes@.subrange(0, self.pos as int) =~= before + data@.subrange(
                0,
                i as int,
            ));
        }
        assert(data@.subrange(0, i as int) =~= data@);
    }
}

} // verus!
