//! A minimal double buffer over plain values: two equal-length buffers,
//! one read and one written, exchanged in O(1).

use vstd::prelude::*;

verus! {

/// A read buffer and a write buffer of equal length.
pub struct SwapBuffer<T> {
    pub read: Vec<T>,
    pub write: Vec<T>,
}

impl<T> SwapBuffer<T> {
    /// Exchanges the read and write roles in O(1); no element is copied,
    /// moved or lost.
    pub fn swap(&mut self)
        ensures
            final (self).read == old(self).write,
            final (self).write == old(self).read,
    {
        core::mem::swap(&mut self.read, &mut self.write);
    }
}

impl<T: Copy + Default> SwapBuffer<T> {
    /// Two fresh buffers of `size` default values each.
    pub fn new(size: usize) -> (b: SwapBuffer<T>)
        ensures
            b.read@.len() == size,
            b.write@.len() == size,
            b.read@ == b.write@,
            forall|i: int, j: int|
                0 <= i < size && 0 <= j < size ==> b.read@[i] == b.read@[j],
    {
        let d = T::default();
        let mut read: Vec<T> = Vec::new();
        let mut i: usize = 0;
        while i < size
            invariant
                i <= size,
                read@ =~= Seq::new(i as nat, |j: int| d),
            decreases size - i,
        {
            read.push(d);
            i = i + 1;
        }
        let write = crate::swap_buffer::copy_vec(&read);
        SwapBuffer { read, write }
    }
}

} // verus!
