//! A character-grid buffer for terminal output.

use crate::out::Buffer;
use vstd::pervasive::VecAdditionalExecFns;
use vstd::prelude::*;

verus! {

/// A W x H grid of glyphs, row-major.
#[derive(Clone)]
pub struct SimpleTerminalBuffer {
    pub size_x: usize,
    pub size_y: usize,
    pub buffer: Vec<char>,
}

/// A row-major index stays inside the grid.
pub proof fn lemma_row_major(y: int, x: int, w: int, h: int)
    requires
        0 <= y < h,
        0 <= x < w,
    ensures
        0 <= y * w + x < h * w,
{
    assert(0 <= y * w + x < h * w) by (nonlinear_arith)
        requires
            0 <= y < h,
            0 <= x < w,
    ;
}

impl SimpleTerminalBuffer {
    /// The backing storage holds exactly one glyph per cell.
    pub open spec fn wf(&self) -> bool {
        self.buffer@.len() == self.size_y * self.size_x
    }

    /// A blank buffer of the given size.
    pub fn new(size_x: usize, size_y: usize) -> (r: SimpleTerminalBuffer)
        requires
            size_x * size_y <= 0x40000000,
        ensures
            r.size_x == size_x,
            r.size_y == size_y,
            r.wf(),
            forall|i: int| 0 <= i < r.buffer@.len() ==> r.buffer@[i] == ' ',
    {
        proof {
            assert(size_y * size_x == size_x * size_y) by (nonlinear_arith);
        }
        let n: usize = size_y * size_x;
        let mut buffer: Vec<char> = Vec::new();
        let mut i: usize = 0;
        while i < n
            invariant
                0 <= i <= n,
                buffer@.len() == i,
                forall|j: int| 0 <= j < i as int ==> buffer@[j] == ' ',
            decreases n - i,
        {
            buffer.push(' ');
            i = i + 1;
        }
        SimpleTerminalBuffer { size_x, size_y, buffer }
    }
}

impl SimpleTerminalBuffer {
    /// A buffer of the given size around an existing backing store.
    pub fn new_with_buffer(size_x: usize, size_y: usize, buffer: Vec<char>) -> (r: Self)
        ensures
            r.size_x == size_x,
            r.size_y == size_y,
            r.buffer == buffer,
    {
        SimpleTerminalBuffer { size_x, size_y, buffer }
    }

    /// Swaps in a backing store; the store must match the grid's size for
    /// the cells to stay addressable.
    pub fn replace_buffer(&mut self, new_buffer: Vec<char>)
        ensures
            final(self).buffer == new_buffer,
            final(self).size_x == old(self).size_x,
            final(self).size_y == old(self).size_y,
    {
        self.buffer = new_buffer;
    }

    /// Takes over another buffer's backing store.
    pub fn replace_buffer_self(&mut self, new_buffer: Self)
        ensures
            final(self).buffer == new_buffer.buffer,
            final(self).size_x == old(self).size_x,
            final(self).size_y == old(self).size_y,
    {
        self.replace_buffer(new_buffer.buffer);
    }

    /// The glyph at (row `y`, column `x`).
    pub fn get(&self, y: usize, x: usize) -> (r: char)
        requires
            self.wf(),
            y < self.size_y,
            x < self.size_x,
        ensures
            r == self.buffer@[y as int * self.size_x as int + x as int],
    {
        let n = self.buffer.len();
        proof {
            lemma_row_major(y as int, x as int, self.size_x as int, self.size_y as int);
            assert((y as int) * (self.size_x as int) + (x as int) < n as int);
        }
        self.buffer[y * self.size_x + x]
    }

    /// Writes the glyph at (row `y`, column `x`).
    pub fn set(&mut self, y: usize, x: usize, val: char)
        requires
            old(self).wf(),
            y < old(self).size_y,
            x < old(self).size_x,
        ensures
            final(self).buffer@ == old(self).buffer@.update(
                y as int * old(self).size_x as int + x as int,
                val,
            ),
            final(self).size_x == old(self).size_x,
            final(self).size_y == old(self).size_y,
            final(self).wf(),
    {
        let n = self.buffer.len();
        proof {
            lemma_row_major(y as int, x as int, self.size_x as int, self.size_y as int);
            assert((y as int) * (self.size_x as int) + (x as int) < n as int);
        }
        let idx: usize = y * self.size_x + x;
        use_set(&mut self.buffer, idx, val);
    }
}

impl Buffer for SimpleTerminalBuffer {
    type Data = char;

    type Container = Vec<char>;

    /// The cell exists: the grid is well formed and the coordinates are
    /// inside it.
    open spec fn in_range(&self, y: int, x: int) -> bool {
        self.wf() && 0 <= y < self.size_y && 0 <= x < self.size_x
    }

    fn new_with_buffer(size_x: usize, size_y: usize, buffer: Vec<char>) -> (r: Self)
        ensures
            r.size_x == size_x,
            r.size_y == size_y,
            r.buffer == buffer,
    {
        SimpleTerminalBuffer::new_with_buffer(size_x, size_y, buffer)
    }

    fn replace_buffer(&mut self, new_buffer: Vec<char>)
        ensures
            final(self).buffer == new_buffer,
            final(self).size_x == old(self).size_x,
            final(self).size_y == old(self).size_y,
    {
        SimpleTerminalBuffer::replace_buffer(self, new_buffer);
    }

    fn replace_buffer_self(&mut self, new_buffer: Self)
        ensures
            final(self).buffer == new_buffer.buffer,
            final(self).size_x == old(self).size_x,
            final(self).size_y == old(self).size_y,
    {
        SimpleTerminalBuffer::replace_buffer_self(self, new_buffer);
    }

    fn get(&self, y: usize, x: usize) -> (r: char)
        ensures
            r == self.buffer@[y as int * self.size_x as int + x as int],
    {
        SimpleTerminalBuffer::get(self, y, x)
    }

    fn set(&mut self, y: usize, x: usize, val: char)
        ensures
            final(self).buffer@ == old(self).buffer@.update(
                y as int * old(self).size_x as int + x as int,
                val,
            ),
            final(self).size_x == old(self).size_x,
            final(self).size_y == old(self).size_y,
            final(self).wf(),
    {
        SimpleTerminalBuffer::set(self, y, x, val);
    }
}

/// Writes one element of a vector in place.
fn use_set(v: &mut Vec<char>, i: usize, val: char)
    requires
        i < old(v)@.len(),
    ensures
        final(v)@ == old(v)@.update(i as int, val),
{
    v.set(i, val)
}

} // verus!
