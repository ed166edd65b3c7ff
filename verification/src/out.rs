//! Output buffers: the capability a renderer writes its glyphs into.

pub mod terminal;

use vstd::prelude::*;

verus! {

/// A fixed two-dimensional grid of display data addressed by (row,
/// column).  Values are constructed with the implementing type's own
/// constructor; `in_range` says which cells exist.
pub trait Buffer: Sized {
    type Data;

    type Container;

    /// The cell at (row `y`, column `x`) exists.
    spec fn in_range(&self, y: int, x: int) -> bool;

    fn new_with_buffer(size_x: usize, size_y: usize, buffer: Self::Container) -> Self;

    fn replace_buffer(&mut self, new_buffer: Self::Container);

    fn replace_buffer_self(&mut self, new_buffer: Self);

    fn get(&self, y: usize, x: usize) -> Self::Data
        requires
            self.in_range(y as int, x as int),
    ;

    fn set(&mut self, y: usize, x: usize, val: Self::Data)
        requires
            old(self).in_range(y as int, x as int),
    ;
}

} // verus!
