//! A double-ended bump allocator used before the real byte and page
//! allocators are ready.
//!
//! The managed range is `[start, end)`. Byte allocations grow forward from
//! `b_pos`; page allocations grow backward from `p_pos`; the area between the
//! two cursors is still free. `count` records the number of outstanding byte
//! allocations: when it drops back to zero the whole byte area is reclaimed
//! at once. Pages are never reclaimed.

use vstd::prelude::*;

verus! {

/// Errors of the allocator.
#[derive(Clone, Copy, PartialEq, Eq, Structural, Debug)]
pub enum AllocError {
    NoMemory,
}

/// Early memory allocator over the range `[start, end)`, with `SIZE` the page
/// size in bytes.
pub struct EarlyAllocator<const SIZE: usize> {
    pub start: usize,
    pub b_pos: usize,
    pub p_pos: usize,
    pub end: usize,
    pub count: usize,
}

/// The first address `>= pos` that is a multiple of `align` (a power of two),
/// computed by the usual mask formula.
pub open spec fn spec_align_up(pos: usize, align: usize) -> usize {
    ((pos + align - 1) as usize) & !((align - 1) as usize)
}

/// The last address `<= pos` that is a multiple of `align` (a power of two).
pub open spec fn spec_align_down(pos: usize, align: usize) -> usize {
    ((pos - align + 1) as usize) & !((align - 1) as usize)
}

/// Masking a value can only lower it.
pub proof fn lemma_and_le(x: usize, y: usize)
    ensures
        (x & y) <= x,
{
    assert((x & y) <= x) by (bit_vector);
}

impl<const SIZE: usize> EarlyAllocator<SIZE> {
    /// All cursors of an allocator: a well-formed allocator keeps
    /// `start <= b_pos <= p_pos <= end`.
    pub open spec fn wf(self) -> bool {
        self.start <= self.b_pos <= self.p_pos <= self.end
    }

    pub open spec fn spec_start(self) -> usize {
        self.start
    }

    pub open spec fn spec_b_pos(self) -> usize {
        self.b_pos
    }

    pub open spec fn spec_p_pos(self) -> usize {
        self.p_pos
    }

    pub open spec fn spec_end(self) -> usize {
        self.end
    }

    pub open spec fn spec_count(self) -> usize {
        self.count
    }

    /// Creates an allocator that manages no memory yet.
    pub fn new() -> (r: Self)
        ensures
            r.wf(),
            r.spec_start() == 0,
            r.spec_b_pos() == 0,
            r.spec_p_pos() == 0,
            r.spec_end() == 0,
            r.spec_count() == 0,
    {
        Self { start: 0, b_pos: 0, p_pos: 0, end: 0, count: 0 }
    }

    /// Installs the managed memory range `[start, start + size)` and resets
    /// both cursors.
    pub fn init(&mut self, start: usize, size: usize)
        requires
            start + size <= usize::MAX,
        ensures
            final(self).wf(),
            final(self).spec_start() == start,
            final(self).spec_b_pos() == start,
            final(self).spec_p_pos() == start + size,
            final(self).spec_end() == start + size,
            final(self).spec_count() == 0,
    {
        self.start = start;
        self.b_pos = start;
        self.p_pos = start + size;
        self.end = start + size;
        self.count = 0;
    }

    /// Allocates `size` bytes aligned to `align` from the forward byte area.
    pub fn alloc_bytes(&mut self, size: usize, align: usize) -> (r: Result<usize, AllocError>)
        requires
            old(self).wf(),
            align >= 1,
            old(self).spec_b_pos() + align - 1 <= usize::MAX,
            old(self).spec_b_pos() + size <= old(self).spec_p_pos(),
            old(self).spec_count() < usize::MAX,
        ensures
            final(self).wf(),
            r == Ok::<usize, AllocError>(spec_align_up(old(self).spec_b_pos(), align)),
            final(self).spec_b_pos() == old(self).spec_b_pos() + size,
            final(self).spec_count() == old(self).spec_count() + 1,
            final(self).spec_start() == old(self).spec_start(),
            final(self).spec_p_pos() == old(self).spec_p_pos(),
            final(self).spec_end() == old(self).spec_end(),
    {
        let aligned_addr: usize = (self.b_pos + (align - 1)) & !(align - 1);
        self.b_pos = self.b_pos + size;
        self.count = self.count + 1;
        Ok(aligned_addr)
    }

    /// Releases one byte allocation; when no allocation is left the whole
    /// byte area is reclaimed at once.
    pub fn dealloc(&mut self)
        requires
            old(self).wf(),
            old(self).spec_count() >= 1,
        ensures
            final(self).wf(),
            final(self).spec_count() == old(self).spec_count() - 1,
            final(self).spec_b_pos() == if old(self).spec_count() == 1 {
                old(self).spec_start()
            } else {
                old(self).spec_b_pos()
            },
            final(self).spec_start() == old(self).spec_start(),
            final(self).spec_p_pos() == old(self).spec_p_pos(),
            final(self).spec_end() == old(self).spec_end(),
    {
        self.count = self.count - 1;
        if self.count == 0 {
            self.b_pos = self.start;
        }
    }

    /// Size of the whole managed range, in bytes.
    pub fn total_bytes(&self) -> (r: usize)
        requires
            self.wf(),
        ensures
            r == self.spec_end() - self.spec_start(),
    {
        self.end - self.start
    }

    /// Bytes consumed by the forward byte area.
    pub fn used_bytes(&self) -> (r: usize)
        requires
            self.wf(),
        ensures
            r == self.spec_b_pos() - self.spec_start(),
    {
        self.b_pos - self.start
    }

    /// Bytes still free between the two cursors.
    pub fn available_bytes(&self) -> (r: usize)
        requires
            self.wf(),
        ensures
            r == self.spec_p_pos() - self.spec_b_pos(),
    {
        self.p_pos - self.b_pos
    }

    /// Allocates `num_pages` pages from the backward page area, aligned to
    /// `1 << align_pow2` bytes.
    pub fn alloc_pages(&mut self, num_pages: usize, align_pow2: usize) -> (r: Result<
        usize,
        AllocError,
    >)
        requires
            old(self).wf(),
            align_pow2 < 32,
            old(self).spec_p_pos() < usize::MAX,
            old(self).spec_p_pos() + 1 >= (1usize << align_pow2),
            spec_align_down(old(self).spec_p_pos(), (1usize << align_pow2) as usize) >= old(
                self,
            ).spec_b_pos() + num_pages * SIZE,
        ensures
            final(self).wf(),
            r == Ok::<usize, AllocError>(
                spec_align_down(old(self).spec_p_pos(), (1usize << align_pow2) as usize),
            ),
            final(self).spec_p_pos() == spec_align_down(
                old(self).spec_p_pos(),
                (1usize << align_pow2) as usize,
            ) - num_pages * SIZE,
            final(self).spec_start() == old(self).spec_start(),
            final(self).spec_b_pos() == old(self).spec_b_pos(),
            final(self).spec_end() == old(self).spec_end(),
            final(self).spec_count() == old(self).spec_count(),
    {
        let align: usize = 1 << align_pow2;
        proof {
            assert(1usize << align_pow2 >= 1) by (bit_vector)
                requires
                    align_pow2 < 32,
            ;
        }
        let aligned_addr: usize = (self.p_pos + 1 - align) & !(align - 1);
        proof {
            lemma_and_le((self.p_pos + 1 - align) as usize, !((align - 1) as usize));
        }
        self.p_pos = aligned_addr - num_pages * SIZE;
        Ok(aligned_addr)
    }

    /// Number of whole pages in the managed range.
    pub fn total_pages(&self) -> (r: usize)
        requires
            self.wf(),
            SIZE >= 1,
        ensures
            r == (self.spec_end() - self.spec_start()) as usize / SIZE,
    {
        (self.end - self.start) / SIZE
    }

    /// Number of whole pages consumed by the backward page area.
    pub fn used_pages(&self) -> (r: usize)
        requires
            self.wf(),
            SIZE >= 1,
        ensures
            r == (self.spec_end() - self.spec_p_pos()) as usize / SIZE,
    {
        (self.end - self.p_pos) / SIZE
    }

    /// Number of whole pages still free between the two cursors.
    pub fn available_pages(&self) -> (r: usize)
        requires
            self.wf(),
            SIZE >= 1,
        ensures
            r == (self.spec_p_pos() - self.spec_b_pos()) as usize / SIZE,
    {
        (self.p_pos - self.b_pos) / SIZE
    }
}

} // verus!
