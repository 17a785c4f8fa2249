//! The double-buffered grid container: a stable read buffer and a mutable
//! write buffer of equal length, whose roles are exchanged in O(1) once per
//! tick.

use vstd::prelude::*;

verus! {

/// Two same-length buffers with a grid width; `r` is read during a tick,
/// `w` is mutated in place, and `swap` exchanges their roles.
pub struct SwapBuffer<T> {
    /// Row length of the grid the buffers hold.
    pub width: usize,
    /// The buffer exposed for reading.
    pub r: Vec<T>,
    /// The buffer mutated during the current tick.
    pub w: Vec<T>,
}

/// The value of a buffer after one role exchange: the same buffers with
/// read and write swapped.
pub open spec fn spec_swapped<T>(b: SwapBuffer<T>) -> SwapBuffer<T> {
    SwapBuffer { width: b.width, r: b.w, w: b.r }
}

/// Exchanging roles twice restores the original read/write assignment;
/// both buffers' contents are untouched by the exchange.
pub proof fn lemma_swap_involution<T>(b: SwapBuffer<T>)
    ensures
        spec_swapped(spec_swapped(b)) == b,
{
}

impl<T> SwapBuffer<T> {
    /// Exchanges the read and write roles in O(1); no element is copied,
    /// moved or lost.
    pub fn swap(&mut self)
        ensures
            *final (self) == spec_swapped(*old(self)),
    {
        core::mem::swap(&mut self.r, &mut self.w);
    }
}

impl<T: Copy> SwapBuffer<T> {
    /// Swaps two cells of the read buffer.
    pub fn swap_cells(&mut self, pos1: usize, pos2: usize)
        requires
            pos1 < old(self).r@.len(),
            pos2 < old(self).r@.len(),
        ensures
            final (self).r@ == old(self).r@.update(pos1 as int, old(self).r@[pos2 as int]).update(
                pos2 as int,
                old(self).r@[pos1 as int],
            ),
            final (self).w == old(self).w,
            final (self).width == old(self).width,
    {
        let a = self.r[pos1];
        let b = self.r[pos2];
        self.r[pos1] = b;
        self.r[pos2] = a;
    }

    /// Swaps two cells of the write buffer.
    pub fn swap_cells_w(&mut self, pos1: usize, pos2: usize)
        requires
            pos1 < old(self).w@.len(),
            pos2 < old(self).w@.len(),
        ensures
            final (self).w@ == old(self).w@.update(pos1 as int, old(self).w@[pos2 as int]).update(
                pos2 as int,
                old(self).w@[pos1 as int],
            ),
            final (self).r == old(self).r,
            final (self).width == old(self).width,
    {
        let a = self.w[pos1];
        let b = self.w[pos2];
        self.w[pos1] = b;
        self.w[pos2] = a;
    }

    /// Builds a buffer pair from one base grid: both buffers start as
    /// copies of it.
    pub fn from_arr(base: Vec<T>, width: usize) -> (b: SwapBuffer<T>)
        ensures
            b.r@ == base@,
            b.w@ == base@,
            b.width == width,
    {
        let copy = copy_vec(&base);
        SwapBuffer { width, r: copy, w: base }
    }
}

/// An element-wise copy of a vector of plain values.
pub fn copy_vec<T: Copy>(v: &Vec<T>) -> (r: Vec<T>)
    ensures
        r@ == v@,
{
    let mut r: Vec<T> = Vec::new();
    let mut i: usize = 0;
    while i < v.len()
        invariant
            i <= v@.len(),
            r@ =~= v@.take(i as int),
        decreases v@.len() - i,
    {
        r.push(v[i]);
        i = i + 1;
    }
    proof {
        assert(v@.take(v@.len() as int) =~= v@);
    }
    r
}

} // verus!
