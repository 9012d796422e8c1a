//! Linear framebuffer for early-boot screen output.
//!
//! The pixels are held row after row, `bytes_per_row` pixels to a row (the row pitch in
//! pixels), of which the first `width` are visible.

use vstd::prelude::*;

verus! {

/// A framebuffer of `height` rows of `bytes_per_row` 32-bit pixels.
pub struct BasicFramebuffer {
    /// The pixels, row after row.
    pub pixels: Vec<u32>,
    /// Pixels per row, the visible ones and the padding.
    pub bytes_per_row: u32,
    /// Visible pixels per row.
    pub width: u64,
    /// Number of rows.
    pub height: u64,
}

impl BasicFramebuffer {
    /// The pixel buffer holds exactly `height` rows of `bytes_per_row` pixels, and the
    /// visible part of a row fits in it.
    pub open spec fn wf(&self) -> bool {
        &&& self.pixels@.len() == self.bytes_per_row as int * self.height as int
        &&& self.pixels@.len() <= usize::MAX
        &&& self.width <= self.bytes_per_row
        &&& self.height <= usize::MAX
    }

    /// A black framebuffer of the given geometry.
    pub fn new(bytes_per_row: u32, width: u64, height: u64) -> (r: Self)
        requires
            width <= bytes_per_row,
            height <= usize::MAX,
            bytes_per_row as int * height as int <= usize::MAX,
        ensures
            r.wf(),
            r.bytes_per_row == bytes_per_row,
            r.width == width,
            r.height == height,
            r.pixels@ == Seq::new((bytes_per_row as int * height as int) as nat, |i: int| 0u32),
    {
        let total: usize = (bytes_per_row as u64 * height) as usize;
        let mut pixels: Vec<u32> = Vec::new();
        let mut i: usize = 0;
        while i < total
            invariant
                i <= total,
                pixels@ == Seq::new(i as nat, |j: int| 0u32),
            decreases total - i,
        {
            pixels.push(0);
            i += 1;
            assert(pixels@ =~= Seq::new(i as nat, |j: int| 0u32));
        }
        assert(pixels@ =~= Seq::new((bytes_per_row as int * height as int) as nat, |i: int| 0u32));
        BasicFramebuffer { pixels, bytes_per_row, width, height }
    }

    /// Write zero (black) to every pixel in the framebuffer.
    pub fn clear(&mut self)
        requires
            old(self).wf(),
        ensures
            final(self).wf(),
            final(self).bytes_per_row == old(self).bytes_per_row,
            final(self).width == old(self).width,
            final(self).height == old(self).height,
            final(self).pixels@ == Seq::new(old(self).pixels@.len(), |i: int| 0u32),
    {
        let n = self.pixels.len();
        let mut i: usize = 0;
        while i < n
            invariant
                i <= n,
                n == self.pixels@.len(),
                n == old(self).pixels@.len(),
                self.bytes_per_row == old(self).bytes_per_row,
                self.width == old(self).width,
                self.height == old(self).height,
                forall|j: int| 0 <= j < i ==> self.pixels@[j] == 0,
            decreases n - i,
        {
            self.pixels.set(i, 0);
            i += 1;
        }
        assert(self.pixels@ =~= Seq::new(old(self).pixels@.len(), |i: int| 0u32));
    }
}

} // verus!
