//! Buffering of compilation output.
use vstd::prelude::*;

verus! {

/// A byte buffer that asks to be flushed once it holds its capacity.
pub struct BufferedWriter {
    buffer: Vec<u8>,
    capacity: usize,
}

impl BufferedWriter {
    /// The bytes held.
    pub closed spec fn contents(&self) -> Seq<u8> {
        self.buffer@
    }

    /// The size at which the buffer asks to be flushed.
    pub closed spec fn capacity(&self) -> usize {
        self.capacity
    }

    pub fn new(capacity: usize) -> (r: Self)
        ensures
            r.contents() == Seq::<u8>::empty(),
            r.capacity() == capacity,
    {
        BufferedWriter { buffer: Vec::new(), capacity }
    }

    /// Appends bytes to the buffer.
    pub fn write(&mut self, data: &[u8])
        ensures
            final(self).contents() == old(self).contents() + data@,
            final(self).capacity() == old(self).capacity(),
    {
        let mut i: usize = 0;
        while i < data.len()
            invariant
                0 <= i <= data.len(),
                self.buffer@ == old(self).buffer@ + data@.take(i as int),
                self.capacity == old(self).capacity,
            decreases data.len() - i,
        {
            self.buffer.push(data[i]);
            assert(self.buffer@ =~= old(self).buffer@ + data@.take(i + 1));
            i += 1;
        }
        assert(data@.take(data.len() as int) =~= data@);
    }

    /// Empties the buffer.
    pub fn clear(&mut self)
        ensures
            final(self).contents() == Seq::<u8>::empty(),
            final(self).capacity() == old(self).capacity(),
    {
        self.buffer.clear();
    }

    /// The bytes held, for writing them out.
    pub fn bytes(&self) -> (r: &[u8])
        ensures
            r@ == self.contents(),
    {
        self.buffer.as_slice()
    }

    /// The number of bytes held.
    pub fn len(&self) -> (r: usize)
        ensures
            r == self.contents().len(),
    {
        self.buffer.len()
    }

    pub fn is_empty(&self) -> (r: bool)
        ensures
            r == (self.contents().len() == 0),
    {
        self.buffer.len() == 0
    }

    /// Whether the buffer holds at least its capacity.
    pub fn should_flush(&self) -> (r: bool)
        ensures
            r == (self.contents().len() >= self.capacity()),
    {
        self.buffer.len() >= self.capacity
    }
}

} // verus!
