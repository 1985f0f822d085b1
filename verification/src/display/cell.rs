//! Character cell tracking for the framebuffer.
//!
//! Each [`Cell`] records the screen position and width of a rendered glyph,
//! so that a backspace can erase the right pixel region.
use vstd::prelude::*;

verus! {

/// A rendered character cell: the top-left origin and the pixel width of a glyph.
#[derive(Debug)]
pub struct Cell {
    start_x: usize,
    start_y: usize,
    width: usize,
}

/// The position and width a cell records.
pub struct CellView {
    pub start_x: usize,
    pub start_y: usize,
    pub width: usize,
}

impl View for Cell {
    type V = CellView;

    closed spec fn view(&self) -> CellView {
        CellView { start_x: self.start_x, start_y: self.start_y, width: self.width }
    }
}

impl Cell {
    /// A cell at `(start_x, start_y)` that is `width` pixels wide.
    pub fn new(start_x: usize, start_y: usize, width: usize) -> (r: Self)
        ensures
            r@ == (CellView { start_x, start_y, width }),
    {
        Self { start_x, start_y, width }
    }

    /// The column of the cell's left edge.
    pub fn start_x(&self) -> (r: usize)
        ensures
            r == self@.start_x,
    {
        self.start_x
    }

    /// The row of the cell's top edge.
    pub fn start_y(&self) -> (r: usize)
        ensures
            r == self@.start_y,
    {
        self.start_y
    }

    /// The cell's width in pixels.
    pub fn width(&self) -> (r: usize)
        ensures
            r == self@.width,
    {
        self.width
    }
}

} // verus!
