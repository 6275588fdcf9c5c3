//! A row-major pixel buffer, the downstream consumer's store for one
//! generated frame of the field.
//!
//! Writes wrap horizontally (the column index is taken modulo the width)
//! and silently drop positions whose row falls outside the buffer, as the
//! rendering loop expects.

use crate::types::UVec2;
use vstd::prelude::*;

verus! {

/// A rectangle of values, stored row-major.
#[derive(Clone, Debug)]
pub struct Buffer<T> {
    pub buff: Vec<T>,
    pub width: usize,
    pub height: usize,
}

/// The row-major storage index of a position: the column wraps modulo the
/// width, the row is taken as is.
pub open spec fn spec_buffer_index(width: int, pos: UVec2) -> int {
    (pos.x as int) % width + width * (pos.y as int)
}

impl<T: Copy> Buffer<T> {
    /// Writes `val` at `pos`, wrapping the column and ignoring a row
    /// beyond the stored rectangle.
    pub fn set(&mut self, pos: UVec2, val: T)
        requires
            old(self).width > 0,
            (old(self).width as int) * (pos.y as int) + (pos.x as int) % (old(self).width as int)
                <= usize::MAX,
        ensures
            final(self).width == old(self).width,
            final(self).height == old(self).height,
            final(self).buff@.len() == old(self).buff@.len(),
            ({
                let i = spec_buffer_index(old(self).width as int, pos);
                if i < old(self).buff@.len() {
                    final(self).buff@ == old(self).buff@.update(i, val)
                } else {
                    final(self).buff@ == old(self).buff@
                }
            }),
    {
        let col: usize = pos.x % self.width;
        let idx: usize = col + self.width * pos.y;
        if idx < self.buff.len() {
            self.buff[idx] = val;
        }
    }

    /// Reads the value at `pos`; the position's index must be stored.
    pub fn get(&mut self, pos: UVec2) -> (r: T)
        requires
            old(self).width > 0,
            (old(self).width as int) * (pos.y as int) + (pos.x as int) % (old(self).width as int)
                <= usize::MAX,
            (old(self).width as int) * (pos.y as int) + (pos.x as int) % (old(self).width as int)
                < old(self).buff@.len(),
        ensures
            *final(self) == *old(self),
            r == old(self).buff@[spec_buffer_index(old(self).width as int, pos)],
    {
        let col: usize = pos.x % self.width;
        let idx: usize = col + self.width * pos.y;
        self.buff[idx]
    }

    /// Replaces the contents with one value over the whole rectangle.
    pub fn reset(&mut self, val: T)
        requires
            (old(self).width as int) * (old(self).height as int) <= usize::MAX,
        ensures
            final(self).width == old(self).width,
            final(self).height == old(self).height,
            final(self).buff@.len() == old(self).width * old(self).height,
            forall|j: int|
                0 <= j < final(self).buff@.len() ==> final(self).buff@[j] == val,
    {
        let n: usize = self.width * self.height;
        let mut fresh: Vec<T> = Vec::new();
        let mut i: usize = 0;
        while i < n
            invariant
                i <= n,
                fresh@.len() == i,
                forall|j: int| 0 <= j < i ==> fresh@[j] == val,
            decreases n - i,
        {
            fresh.push(val);
            i = i + 1;
        }
        self.buff = fresh;
    }
}

} // verus!
