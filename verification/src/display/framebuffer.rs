//! Framebuffer text renderer.
//!
//! A [`FrameBuffer`] tracks the cursor and the cells of the current line of
//! a linear framebuffer, and renders text into the framebuffer's pixels with
//! line wrapping, backspace and scrolling.
//!
//! The pixels are handed to each operation as a slice of `stride * height`
//! 32-bit values, row after row: the pixel `(x, y)` is at `y * stride + x`.
use vstd::prelude::*;
use vstd::arithmetic::div_mod::{lemma_fundamental_div_mod, lemma_fundamental_div_mod_converse};

use crate::display::cell::{Cell, CellView};
use crate::display::font::{glyph, glyph_raster, raster_height, GLYPH_WIDTH, RASTER_HEIGHT};

verus! {

/// The text renderer's state for one linear framebuffer.
pub struct FrameBuffer {
    width: usize,
    height: usize,
    stride: usize,
    cursor_x: usize,
    cursor_y: usize,
    cells: Vec<Cell>,
}

/// What a [`FrameBuffer`] holds: the framebuffer's geometry, the cursor,
/// and the cells of the glyphs written on the current line.
pub struct FrameBufferView {
    pub width: usize,
    pub height: usize,
    pub stride: usize,
    pub cursor_x: usize,
    pub cursor_y: usize,
    pub cells: Seq<CellView>,
}

impl View for FrameBuffer {
    type V = FrameBufferView;

    closed spec fn view(&self) -> FrameBufferView {
        FrameBufferView {
            width: self.width,
            height: self.height,
            stride: self.stride,
            cursor_x: self.cursor_x,
            cursor_y: self.cursor_y,
            cells: self.cells@.map_values(|c: Cell| c@),
        }
    }
}

/// Number of pixels of the framebuffer.
pub open spec fn pixel_count(v: FrameBufferView) -> int {
    v.stride * v.height
}

/// The geometry is one a framebuffer can have: rows at least as long as the
/// visible width, and all pixels addressable.
pub open spec fn geometry_ok(width: usize, height: usize, stride: usize) -> bool {
    &&& width <= stride
    &&& stride * height <= usize::MAX
    &&& stride + 64 <= usize::MAX
    &&& height + 64 <= usize::MAX
}

/// The framebuffer can scroll: it has room for one line of text whenever a
/// row holds any pixel (scrolling moves whole text lines).
pub open spec fn scroll_ok(v: FrameBufferView) -> bool {
    v.height >= RASTER_HEIGHT || v.stride == 0
}

/// Writing `c` may break the line: a line feed does, and so does a
/// character the font has a glyph for when the next glyph would no longer
/// fit after it.
pub open spec fn may_break_line(v: FrameBufferView, c: char) -> bool {
    c == '\n' || (c != '\u{8}' && glyph_raster(c) is Some && v.cursor_x + 2 * GLYPH_WIDTH
        >= v.width)
}

/// Writing the characters `cs` from `v` over the pixels `s` never breaks
/// the line.
pub open spec fn keeps_line(v: FrameBufferView, s: Seq<u32>, cs: Seq<char>) -> bool {
    forall|k: int|
        0 <= k < cs.len() ==> !may_break_line(
            #[trigger] write_str_result(v, s, cs.take(k)).0,
            cs[k],
        )
}

/// A valid geometry, the cursor's row inside the framebuffer, and every
/// cell a glyph-wide cell inside it.
pub open spec fn layout_ok(v: FrameBufferView) -> bool {
    &&& geometry_ok(v.width, v.height, v.stride)
    &&& v.cursor_y <= v.height
    &&& forall|k: int|
        0 <= k < v.cells.len() ==> #[trigger] v.cells[k].start_x <= v.width
            && v.cells[k].start_y <= v.height && v.cells[k].width == GLYPH_WIDTH
}

/// The renderer's invariant: [`layout_ok`] and the cursor's column inside
/// the framebuffer.
pub open spec fn well_formed(v: FrameBufferView) -> bool {
    &&& layout_ok(v)
    &&& v.cursor_x <= v.width
}

/// Column of pixel index `i`.
pub open spec fn col_of(v: FrameBufferView, i: int) -> int {
    i % (v.stride as int)
}

/// Row of pixel index `i`.
pub open spec fn row_of(v: FrameBufferView, i: int) -> int {
    i / (v.stride as int)
}

/// The 32-bit pixel of gray level `b`: `b` in each of the three colour bytes.
pub open spec fn gray(b: u8) -> u32 {
    ((b as u32) * 0x10101) as u32
}

/// `v` with its cursor at `(x, y)`.
pub open spec fn with_cursor(v: FrameBufferView, x: usize, y: usize) -> FrameBufferView {
    FrameBufferView {
        width: v.width,
        height: v.height,
        stride: v.stride,
        cursor_x: x,
        cursor_y: y,
        cells: v.cells,
    }
}

/// `v` with the cells `cells`.
pub open spec fn with_cells(v: FrameBufferView, cells: Seq<CellView>) -> FrameBufferView {
    FrameBufferView {
        width: v.width,
        height: v.height,
        stride: v.stride,
        cursor_x: v.cursor_x,
        cursor_y: v.cursor_y,
        cells,
    }
}

/// The pixels `s` moved up by one text line, the freed rows at the bottom black.
pub open spec fn scrolled(v: FrameBufferView, s: Seq<u32>) -> Seq<u32> {
    Seq::new(
        s.len(),
        |i: int|
            if i + RASTER_HEIGHT * v.stride < s.len() {
                s[i + RASTER_HEIGHT * v.stride]
            } else {
                0u32
            },
    )
}

/// Pixel `i` lies in the visible part of the region that `cell` covers.
pub open spec fn in_cell(v: FrameBufferView, cell: CellView, i: int) -> bool {
    &&& cell.start_y <= row_of(v, i) < cell.start_y + RASTER_HEIGHT
    &&& cell.start_x <= col_of(v, i) < cell.start_x + cell.width
    &&& col_of(v, i) < v.width
    &&& row_of(v, i) < v.height
}

/// The pixels `s` with the region of `cell` blacked out.
pub open spec fn cleared(v: FrameBufferView, s: Seq<u32>, cell: CellView) -> Seq<u32> {
    Seq::new(s.len(), |i: int| if in_cell(v, cell, i) { 0u32 } else { s[i] })
}

/// Pixel `i` is a visible, non-blank pixel of the glyph `g` drawn at the cursor.
pub open spec fn glyph_hit(v: FrameBufferView, g: Seq<Seq<u8>>, i: int) -> bool {
    let x = col_of(v, i);
    let y = row_of(v, i);
    &&& v.cursor_y <= y < v.cursor_y + g.len()
    &&& v.cursor_x <= x < v.cursor_x + g[y - v.cursor_y].len()
    &&& x < v.width
    &&& y < v.height
    &&& g[y - v.cursor_y][x - v.cursor_x] != 0
}

/// The intensity of glyph `g` at pixel `i` when drawn at the cursor.
pub open spec fn glyph_level(v: FrameBufferView, g: Seq<Seq<u8>>, i: int) -> u8 {
    g[row_of(v, i) - v.cursor_y][col_of(v, i) - v.cursor_x]
}

/// The pixels `s` with the glyph `g` drawn at the cursor: each visible
/// non-zero intensity becomes a gray pixel, everything else is kept.
pub open spec fn drawn(v: FrameBufferView, s: Seq<u32>, g: Seq<Seq<u8>>) -> Seq<u32> {
    Seq::new(
        s.len(),
        |i: int|
            if glyph_hit(v, g, i) {
                gray(glyph_level(v, g, i))
            } else {
                s[i]
            },
    )
}

/// A line break: the line's cells are forgotten, the cursor returns to the
/// left edge and moves one text line down, or the screen scrolls up when
/// there is no room for another line.
pub open spec fn newline_result(v: FrameBufferView, s: Seq<u32>) -> (FrameBufferView, Seq<u32>) {
    let cleared_line = with_cells(with_cursor(v, 0, v.cursor_y), Seq::empty());
    if v.cursor_y + RASTER_HEIGHT >= v.height {
        (cleared_line, scrolled(v, s))
    } else {
        (with_cursor(cleared_line, 0, (v.cursor_y + RASTER_HEIGHT) as usize), s)
    }
}

/// A backspace: the last cell of the line is erased and the cursor moves
/// to where it began; with no cell on the line nothing changes.
pub open spec fn backspace_result(v: FrameBufferView, s: Seq<u32>) -> (
    FrameBufferView,
    Seq<u32>,
) {
    if v.cells.len() == 0 {
        (v, s)
    } else {
        let cell = v.cells.last();
        (
            with_cursor(with_cells(v, v.cells.drop_last()), cell.start_x, cell.start_y),
            cleared(v, s, cell),
        )
    }
}

/// Writing the character `c`: a line break for `'\n'`, a backspace for
/// `'\u{8}'`, nothing for a character the font lacks, and otherwise its
/// glyph drawn at the cursor, recorded as a cell, and the cursor advanced,
/// with a line break when the next glyph would not fit on the line.
pub open spec fn write_char_result(v: FrameBufferView, s: Seq<u32>, c: char) -> (
    FrameBufferView,
    Seq<u32>,
) {
    if c == '\n' {
        newline_result(v, s)
    } else if c == '\u{8}' {
        backspace_result(v, s)
    } else {
        match glyph_raster(c) {
            None => (v, s),
            Some(g) => {
                let cell = CellView {
                    start_x: v.cursor_x,
                    start_y: v.cursor_y,
                    width: GLYPH_WIDTH,
                };
                let moved = with_cursor(
                    with_cells(v, v.cells.push(cell)),
                    (v.cursor_x + GLYPH_WIDTH) as usize,
                    v.cursor_y,
                );
                let s1 = drawn(v, s, g);
                if moved.cursor_x + GLYPH_WIDTH >= v.width {
                    newline_result(moved, s1)
                } else {
                    (moved, s1)
                }
            },
        }
    }
}

/// Writing the characters `cs` one after the other.
pub open spec fn write_str_result(v: FrameBufferView, s: Seq<u32>, cs: Seq<char>) -> (
    FrameBufferView,
    Seq<u32>,
)
    decreases cs.len(),
{
    if cs.len() == 0 {
        (v, s)
    } else {
        let r = write_str_result(v, s, cs.drop_last());
        write_char_result(r.0, r.1, cs.last())
    }
}

/// Where a line feed leaves the cursor: back at the left edge with no
/// cells on the line; one text line further down when there is room for
/// it, and otherwise on the same (bottom) text line while the pixels move
/// up by one text line, with what was shown `RASTER_HEIGHT` rows lower
/// now shown at each row and the freed bottom rows black.
pub proof fn lemma_line_feed(v: FrameBufferView, s: Seq<u32>)
    requires
        well_formed(v),
        s.len() == pixel_count(v),
    ensures
        ({
            let (w, t) = newline_result(v, s);
            &&& w.width == v.width && w.height == v.height && w.stride == v.stride
            &&& w.cursor_x == 0
            &&& w.cells.len() == 0
            &&& v.cursor_y + RASTER_HEIGHT < v.height ==> w.cursor_y == v.cursor_y
                + RASTER_HEIGHT && t == s
            &&& v.cursor_y + RASTER_HEIGHT >= v.height ==> {
                &&& w.cursor_y == v.cursor_y
                &&& t.len() == s.len()
                &&& forall|i: int|
                    0 <= i < s.len() - RASTER_HEIGHT * v.stride ==> #[trigger] t[i] == s[i
                        + RASTER_HEIGHT * v.stride]
                &&& forall|i: int|
                    s.len() - RASTER_HEIGHT * v.stride <= i < s.len() && 0 <= i ==> #[trigger] t[i]
                        == 0u32
            }
        }),
{
}

/// A backspace erases the last glyph of the line: the cursor goes back to
/// where that glyph's cell begins, the cell leaves the line, and exactly
/// the visible pixels of the cell's box (a glyph width across, a text line
/// down) turn black. With no glyph on the line nothing changes.
pub proof fn lemma_backspace_erases_last_cell(v: FrameBufferView, s: Seq<u32>)
    requires
        well_formed(v),
        s.len() == pixel_count(v),
    ensures
        ({
            let (w, t) = backspace_result(v, s);
            &&& v.cells.len() == 0 ==> w == v && t == s
            &&& v.cells.len() > 0 ==> {
                let cell = v.cells[v.cells.len() - 1];
                &&& w.cursor_x == cell.start_x
                &&& w.cursor_y == cell.start_y
                &&& w.cells == v.cells.subrange(0, v.cells.len() - 1)
                &&& w.width == v.width && w.height == v.height && w.stride == v.stride
                &&& t.len() == s.len()
                &&& forall|i: int|
                    0 <= i < s.len() ==> #[trigger] t[i] == if cell.start_x <= i % (v.stride as int)
                        < cell.start_x + cell.width && cell.start_y <= i / (v.stride as int)
                        < cell.start_y + RASTER_HEIGHT && i % (v.stride as int) < v.width && i / (
                    v.stride as int) < v.height {
                        0u32
                    } else {
                        s[i]
                    }
            }
        }),
{
    if v.cells.len() > 0 {
        assert(v.cells.drop_last() =~= v.cells.subrange(0, v.cells.len() - 1));
    }
}

/// Writing a character the font has a glyph for, with room for another
/// glyph after it on the line: each non-blank pixel of the glyph that
/// falls inside the framebuffer is drawn, in gray of its intensity, at its
/// place from the cursor; every other pixel keeps its value; the cursor
/// moves one glyph width right on the same row, and the glyph's cell is
/// added to the line.
pub proof fn lemma_glyph_drawn_at_cursor(v: FrameBufferView, s: Seq<u32>, c: char)
    requires
        well_formed(v),
        s.len() == pixel_count(v),
        c != '\n',
        c != '\u{8}',
        glyph_raster(c) is Some,
        glyph_fits(glyph_raster(c)->0),
        v.cursor_x + 2 * GLYPH_WIDTH < v.width,
    ensures
        ({
            let g = glyph_raster(c)->0;
            let (w, t) = write_char_result(v, s, c);
            &&& w.cursor_x == v.cursor_x + GLYPH_WIDTH
            &&& w.cursor_y == v.cursor_y
            &&& w.cells == v.cells.push(
                CellView { start_x: v.cursor_x, start_y: v.cursor_y, width: GLYPH_WIDTH },
            )
            &&& t.len() == s.len()
            &&& forall|row: int, col: int|
                0 <= row < RASTER_HEIGHT && 0 <= col < GLYPH_WIDTH && v.cursor_y + row < v.height
                    ==> #[trigger] t[(v.cursor_y + row) * v.stride + v.cursor_x + col] == if g[row][col]
                    != 0 {
                    (g[row][col] as int) * 0x10101
                } else {
                    s[(v.cursor_y + row) * v.stride + v.cursor_x + col] as int
                }
            &&& forall|i: int|
                0 <= i < s.len() && !(v.cursor_x <= i % (v.stride as int) < v.cursor_x + GLYPH_WIDTH
                    && v.cursor_y <= i / (v.stride as int) < v.cursor_y + RASTER_HEIGHT)
                    ==> #[trigger] t[i] == s[i]
        }),
{
    let g = glyph_raster(c)->0;
    assert forall|row: int, col: int|
        0 <= row < RASTER_HEIGHT && 0 <= col < GLYPH_WIDTH && v.cursor_y + row < v.height
            implies #[trigger] write_char_result(v, s, c).1[(v.cursor_y + row) * v.stride + v.cursor_x + col]
            == if g[row][col] != 0 {
            (g[row][col] as int) * 0x10101
        } else {
            s[(v.cursor_y + row) * v.stride + v.cursor_x + col] as int
        } by {
        let x = v.cursor_x + col;
        let y = v.cursor_y + row;
        lemma_pixel_index(v, x, y);
        let b = g[row][col];
        assert((b as u32) * 0x10101 < 0x1_0000_0000) by (nonlinear_arith)
            requires
                b < 256,
        ;
    }
}

/// Writing a string is writing its characters one after the other: the
/// text `a` followed by `b` leaves the renderer and the pixels as writing
/// `a`, then `b` from where `a` left them, does; writing nothing changes
/// nothing; writing one character is writing that character.
pub proof fn lemma_write_str_concat(v: FrameBufferView, s: Seq<u32>, a: Seq<char>, b: Seq<char>)
    ensures
        write_str_result(v, s, a + b) == write_str_result(
            write_str_result(v, s, a).0,
            write_str_result(v, s, a).1,
            b,
        ),
        write_str_result(v, s, Seq::empty()) == (v, s),
        forall|c: char| #[trigger] write_str_result(v, s, seq![c]) == write_char_result(v, s, c),
    decreases b.len(),
{
    assert forall|c: char| #[trigger] write_str_result(v, s, seq![c]) == write_char_result(v, s, c) by {
        assert(seq![c].drop_last() =~= Seq::<char>::empty());
        assert(seq![c].last() == c);
        assert(write_str_result(v, s, Seq::<char>::empty()) == (v, s));
    }
    if b.len() == 0 {
        assert(a + b =~= a);
    } else {
        lemma_write_str_concat(v, s, a, b.drop_last());
        assert((a + b).drop_last() =~= a + b.drop_last());
        assert((a + b).last() == b.last());
    }
}

/// The glyph `g` has the font's dimensions: one row per raster line, each
/// one glyph wide.
pub open spec fn glyph_fits(g: Seq<Seq<u8>>) -> bool {
    &&& g.len() == RASTER_HEIGHT
    &&& forall|i: int| 0 <= i < RASTER_HEIGHT ==> #[trigger] g[i].len() == GLYPH_WIDTH
}

/// A backspace undoes the writing of a character on the same line: the
/// renderer is back in its former state, and the only pixels that differ
/// from before the character was written are those of its cell, now black.
pub proof fn lemma_backspace_undoes_write(v: FrameBufferView, s: Seq<u32>, c: char)
    requires
        well_formed(v),
        s.len() == pixel_count(v),
        c != '\n',
        c != '\u{8}',
        glyph_raster(c) is Some,
        glyph_fits(glyph_raster(c)->0),
        v.cursor_x + 2 * GLYPH_WIDTH < v.width,
    ensures
        ({
            let written = write_char_result(v, s, c);
            let erased = backspace_result(written.0, written.1);
            let cell = CellView { start_x: v.cursor_x, start_y: v.cursor_y, width: GLYPH_WIDTH };
            &&& erased.0 == v
            &&& erased.1 == cleared(v, s, cell)
        }),
{
    let g = glyph_raster(c)->0;
    let cell = CellView { start_x: v.cursor_x, start_y: v.cursor_y, width: GLYPH_WIDTH };
    let written = write_char_result(v, s, c);
    let erased = backspace_result(written.0, written.1);
    assert(written.0.cells.last() == cell);
    assert(written.0.cells.drop_last() =~= v.cells);
    assert(erased.0 =~= v);
    assert forall|i: int| 0 <= i < s.len() implies #[trigger] erased.1[i] == cleared(v, s, cell)[i] by {
        if glyph_hit(v, g, i) {
            assert(in_cell(v, cell, i));
        }
    }
    assert(erased.1 =~= cleared(v, s, cell));
}

/// The pixel index of `(x, y)` is inside the framebuffer and maps back to
/// `(x, y)`, and no other index does.
proof fn lemma_pixel_index(v: FrameBufferView, x: int, y: int)
    requires
        geometry_ok(v.width, v.height, v.stride),
        0 <= x < v.width,
        0 <= y < v.height,
    ensures
        0 <= y * v.stride + x < pixel_count(v),
        col_of(v, y * v.stride + x) == x,
        row_of(v, y * v.stride + x) == y,
        forall|i: int|
            #![trigger col_of(v, i), row_of(v, i)]
            col_of(v, i) == x && row_of(v, i) == y ==> i == y * v.stride + x,
{
    let w = v.stride as int;
    let h = v.height as int;
    assert(0 <= y * w + x < w * h) by (nonlinear_arith)
        requires
            0 <= x < w,
            0 <= y < h,
    ;
    lemma_fundamental_div_mod_converse(y * w + x, w, y, x);
    assert forall|i: int|
        #![trigger col_of(v, i), row_of(v, i)]
        col_of(v, i) == x && row_of(v, i) == y implies i == y * v.stride + x by {
        lemma_fundamental_div_mod(i, w);
        assert(w * y == y * w) by (nonlinear_arith);
    }
}

proof fn lemma_gray(value: u32)
    requires
        value < 256,
    ensures
        (value << 16u32) | (value << 8u32) | value == value * 0x10101,
{
    assert((value << 16u32) | (value << 8u32) | value == value * 0x10101) by (bit_vector)
        requires
            value < 256,
    ;
}

impl FrameBuffer {
    /// A renderer for a framebuffer of `width` by `height` visible pixels
    /// whose rows are `stride` pixels apart, with the cursor at the top left.
    pub fn new(width: usize, height: usize, stride: usize) -> (r: Self)
        requires
            geometry_ok(width, height, stride),
        ensures
            r@ == (FrameBufferView {
                width,
                height,
                stride,
                cursor_x: 0,
                cursor_y: 0,
                cells: Seq::empty(),
            }),
            well_formed(r@),
    {
        let r = FrameBuffer { width, height, stride, cursor_x: 0, cursor_y: 0, cells: Vec::new() };
        proof {
            assert(r@.cells =~= Seq::<CellView>::empty());
        }
        r
    }

    /// The visible width in pixels.
    pub fn width(&self) -> (r: usize)
        ensures
            r == self@.width,
    {
        self.width
    }

    /// The visible height in pixels.
    pub fn height(&self) -> (r: usize)
        ensures
            r == self@.height,
    {
        self.height
    }

    /// Writes `color` at pixel `(x, y)`.
    fn put_pixel(&self, screen: &mut [u32], x: usize, y: usize, color: u32)
        requires
            well_formed(self@),
            old(screen)@.len() == pixel_count(self@),
            x < self@.width,
            y < self@.height,
        ensures
            final(screen)@ == old(screen)@.update(y * self@.stride + x, color),
    {
        proof {
            lemma_pixel_index(self@, x as int, y as int);
        }
        screen[y * self.stride + x] = color;
    }

    /// Moves the pixels up by one text line and blacks out the freed rows.
    fn scroll_up(&self, screen: &mut [u32])
        requires
            layout_ok(self@),
            scroll_ok(self@),
            old(screen)@.len() == pixel_count(self@),
        ensures
            final(screen)@ == scrolled(self@, old(screen)@),
    {
        let raster_h = raster_height();
        proof {
            let w = self.stride as int;
            let h = self.height as int;
            if w > 0 {
                assert(20 * w <= w * h) by (nonlinear_arith)
                    requires
                        h >= 20,
                        w > 0,
                ;
            }
        }
        let scroll_pixels = raster_h * self.stride;
        let total_pixels = self.stride * self.height;
        let ghost s0 = screen@;
        let mut i: usize = 0;
        while i < total_pixels - scroll_pixels
            invariant
                screen@.len() == s0.len(),
                s0.len() == total_pixels,
                scroll_pixels <= total_pixels,
                i <= total_pixels - scroll_pixels,
                forall|j: int| 0 <= j < i ==> screen@[j] == s0[j + scroll_pixels],
                forall|j: int| i <= j < s0.len() ==> screen@[j] == s0[j],
            decreases total_pixels - scroll_pixels - i,
        {
            let v = screen[i + scroll_pixels];
            screen[i] = v;
            i = i + 1;
        }
        let mut j: usize = total_pixels - scroll_pixels;
        while j < total_pixels
            invariant
                screen@.len() == s0.len(),
                s0.len() == total_pixels,
                scroll_pixels <= total_pixels,
                total_pixels - scroll_pixels <= j <= total_pixels,
                forall|k: int|
                    0 <= k < total_pixels - scroll_pixels ==> screen@[k] == s0[k + scroll_pixels],
                forall|k: int| total_pixels - scroll_pixels <= k < j ==> screen@[k] == 0,
            decreases total_pixels - j,
        {
            screen[j] = 0;
            j = j + 1;
        }
        proof {
            assert(screen@ =~= scrolled(self@, s0));
        }
    }

    /// Ends the current line.
    fn newline(&mut self, screen: &mut [u32])
        requires
            layout_ok(old(self)@),
            scroll_ok(old(self)@),
            old(screen)@.len() == pixel_count(old(self)@),
        ensures
            (final(self)@, final(screen)@) == newline_result(old(self)@, old(screen)@),
            well_formed(final(self)@),
    {
        self.cells.clear();
        self.cursor_x = 0;
        let raster_h = raster_height();
        if self.cursor_y + raster_h >= self.height {
            self.scroll_up(screen);
            proof {
                assert(self@.cells =~= Seq::<CellView>::empty());
            }
            return;
        }
        self.cursor_y = self.cursor_y + raster_h;
        proof {
            assert(self@.cells =~= Seq::<CellView>::empty());
        }
    }

    /// Blacks out the visible part of the region that `cell` covers.
    fn clear_cell(&self, screen: &mut [u32], cell: &Cell)
        requires
            well_formed(self@),
            old(screen)@.len() == pixel_count(self@),
            cell@.start_x <= self@.width,
            cell@.start_y <= self@.height,
            cell@.width == GLYPH_WIDTH,
        ensures
            final(screen)@ == cleared(self@, old(screen)@, cell@),
    {
        let ghost v = self@;
        let ghost c = cell@;
        let ghost s0 = screen@;
        let raster_h = raster_height();
        let y_end = cell.start_y() + raster_h;
        let x_end = cell.start_x() + cell.width();
        let mut y = cell.start_y();
        while y < y_end
            invariant
                well_formed(v),
                v == self@,
                c == cell@,
                y_end == c.start_y + RASTER_HEIGHT,
                x_end == c.start_x + c.width,
                c.start_y <= y <= y_end,
                c.start_x <= v.width,
                screen@.len() == s0.len(),
                s0.len() == pixel_count(v),
                forall|i: int|
                    0 <= i < s0.len() ==> #[trigger] screen@[i] == if in_cell(v, c, i) && row_of(
                        v,
                        i,
                    ) < y {
                        0u32
                    } else {
                        s0[i]
                    },
            decreases y_end - y,
        {
            let mut x = cell.start_x();
            while x < x_end
                invariant
                    well_formed(v),
                    v == self@,
                    c == cell@,
                    y_end == c.start_y + RASTER_HEIGHT,
                    x_end == c.start_x + c.width,
                    c.start_y <= y < y_end,
                    c.start_x <= x <= x_end,
                    c.start_x <= v.width,
                    screen@.len() == s0.len(),
                    s0.len() == pixel_count(v),
                    forall|i: int|
                        0 <= i < s0.len() ==> #[trigger] screen@[i] == if in_cell(v, c, i) && (
                        row_of(v, i) < y || (row_of(v, i) == y && col_of(v, i) < x)) {
                            0u32
                        } else {
                            s0[i]
                        },
                decreases x_end - x,
            {
                if x < self.width && y < self.height {
                    let ghost before = screen@;
                    self.put_pixel(screen, x, y, 0);
                    proof {
                        lemma_pixel_index(v, x as int, y as int);
                        let k = y * v.stride + x;
                        assert forall|i: int| 0 <= i < s0.len() implies #[trigger] screen@[i] == if in_cell(v, c, i) && (
                        row_of(v, i) < y || (row_of(v, i) == y && col_of(v, i) < x + 1)) {
                            0u32
                        } else {
                            s0[i]
                        } by {
                            if i != k {
                                assert(screen@[i] == before[i]);
                            }
                        }
                    }
                } else {
                    proof {
                        assert forall|i: int| 0 <= i < s0.len() implies #[trigger] screen@[i] == if in_cell(v, c, i) && (
                        row_of(v, i) < y || (row_of(v, i) == y && col_of(v, i) < x + 1)) {
                            0u32
                        } else {
                            s0[i]
                        } by {
                            if row_of(v, i) == y && col_of(v, i) == x {
                                assert(!in_cell(v, c, i));
                            }
                        }
                    }
                }
                x = x + 1;
            }
            proof {
                assert forall|i: int| 0 <= i < s0.len() implies #[trigger] screen@[i] == if in_cell(v, c, i) && row_of(
                        v,
                        i,
                    ) < y + 1 {
                        0u32
                    } else {
                        s0[i]
                    } by {
                    if in_cell(v, c, i) && row_of(v, i) == y {
                        assert(col_of(v, i) < x);
                    }
                }
            }
            y = y + 1;
        }
        proof {
            assert(screen@ =~= cleared(v, s0, c));
        }
    }

    /// Erases the last glyph of the line and moves the cursor back to it.
    fn backspace(&mut self, screen: &mut [u32])
        requires
            well_formed(old(self)@),
            old(screen)@.len() == pixel_count(old(self)@),
        ensures
            (final(self)@, final(screen)@) == backspace_result(old(self)@, old(screen)@),
            well_formed(final(self)@),
    {
        let ghost v0 = self@;
        let cell = match self.cells.pop() {
            Some(c) => c,
            None => {
                proof {
                    assert(self@ == v0);
                }
                return;
            },
        };
        proof {
            assert(self@.cells =~= v0.cells.drop_last());
            assert(cell@ == v0.cells.last());
        }
        self.cursor_x = cell.start_x();
        self.cursor_y = cell.start_y();
        let ghost v1 = self@;
        proof {
            assert(well_formed(v1));
            assert(cleared(v1, screen@, cell@) =~= cleared(v0, screen@, cell@));
        }
        self.clear_cell(screen, &cell);
        proof {
            assert(self@ == with_cursor(with_cells(v0, v0.cells.drop_last()), cell@.start_x, cell@.start_y));
        }
    }

    /// Draws the glyph rows `raster` (the intensities `g`) at the cursor.
    fn draw_glyph(&self, screen: &mut [u32], raster: &[&[u8]], Ghost(g): Ghost<Seq<Seq<u8>>>)
        requires
            well_formed(self@),
            old(screen)@.len() == pixel_count(self@),
            raster@.len() == RASTER_HEIGHT,
            g.len() == RASTER_HEIGHT,
            forall|i: int|
                0 <= i < RASTER_HEIGHT ==> #[trigger] raster@[i]@ == g[i] && raster@[i]@.len()
                    == GLYPH_WIDTH,
        ensures
            final(screen)@ == drawn(self@, old(screen)@, g),
    {
        let ghost v = self@;
        let ghost s0 = screen@;
        let mut row: usize = 0;
        while row < raster.len()
            invariant
                well_formed(v),
                v == self@,
                raster@.len() == RASTER_HEIGHT,
                g.len() == RASTER_HEIGHT,
                forall|i: int|
                    0 <= i < RASTER_HEIGHT ==> #[trigger] raster@[i]@ == g[i] && raster@[i]@.len()
                        == GLYPH_WIDTH,
                row <= RASTER_HEIGHT,
                screen@.len() == s0.len(),
                s0.len() == pixel_count(v),
                forall|i: int|
                    0 <= i < s0.len() ==> #[trigger] screen@[i] == if glyph_hit(v, g, i)
                        && row_of(v, i) - v.cursor_y < row {
                        gray(glyph_level(v, g, i))
                    } else {
                        s0[i]
                    },
            decreases RASTER_HEIGHT - row,
        {
            let pixels = raster[row];
            assert(pixels@ == g[row as int]);
            let mut col: usize = 0;
            while col < pixels.len()
                invariant
                    well_formed(v),
                    v == self@,
                    raster@.len() == RASTER_HEIGHT,
                    g.len() == RASTER_HEIGHT,
                    row < RASTER_HEIGHT,
                    pixels@ == g[row as int],
                    pixels@.len() == GLYPH_WIDTH,
                    col <= GLYPH_WIDTH,
                    screen@.len() == s0.len(),
                    s0.len() == pixel_count(v),
                    forall|i: int|
                        0 <= i < s0.len() ==> #[trigger] screen@[i] == if glyph_hit(v, g, i) && (
                        row_of(v, i) - v.cursor_y < row || (row_of(v, i) - v.cursor_y == row
                            && col_of(v, i) - v.cursor_x < col)) {
                            gray(glyph_level(v, g, i))
                        } else {
                            s0[i]
                        },
                decreases GLYPH_WIDTH - col,
            {
                let intensity = pixels[col];
                let x = self.cursor_x + col;
                let y = self.cursor_y + row;
                if intensity != 0 && !(x >= self.width || y >= self.height) {
                    let value = intensity as u32;
                    proof {
                        lemma_gray(value);
                    }
                    let rgba = (value << 16u32) | (value << 8u32) | value;
                    let ghost before = screen@;
                    self.put_pixel(screen, x, y, rgba);
                    proof {
                        lemma_pixel_index(v, x as int, y as int);
                        let k = y * v.stride + x;
                        assert(glyph_hit(v, g, k));
                        assert forall|i: int| 0 <= i < s0.len() implies #[trigger] screen@[i] == if glyph_hit(v, g, i) && (
                        row_of(v, i) - v.cursor_y < row || (row_of(v, i) - v.cursor_y == row
                            && col_of(v, i) - v.cursor_x < col + 1)) {
                            gray(glyph_level(v, g, i))
                        } else {
                            s0[i]
                        } by {
                            if i != k {
                                assert(screen@[i] == before[i]);
                            }
                        }
                    }
                } else {
                    proof {
                        assert forall|i: int| 0 <= i < s0.len() implies #[trigger] screen@[i] == if glyph_hit(v, g, i) && (
                        row_of(v, i) - v.cursor_y < row || (row_of(v, i) - v.cursor_y == row
                            && col_of(v, i) - v.cursor_x < col + 1)) {
                            gray(glyph_level(v, g, i))
                        } else {
                            s0[i]
                        } by {
                            if row_of(v, i) - v.cursor_y == row && col_of(v, i) - v.cursor_x == col {
                                assert(!glyph_hit(v, g, i));
                            }
                        }
                    }
                }
                col = col + 1;
            }
            proof {
                assert forall|i: int| 0 <= i < s0.len() implies #[trigger] screen@[i] == if glyph_hit(v, g, i)
                        && row_of(v, i) - v.cursor_y < row + 1 {
                        gray(glyph_level(v, g, i))
                    } else {
                        s0[i]
                    } by {
                    if glyph_hit(v, g, i) && row_of(v, i) - v.cursor_y == row {
                        assert(col_of(v, i) - v.cursor_x < col);
                    }
                }
            }
            row = row + 1;
        }
        proof {
            assert(screen@ =~= drawn(v, s0, g));
        }
    }

    /// Writes the character `c` at the cursor (see [`write_char_result`]).
    pub fn write_char(&mut self, screen: &mut [u32], c: char)
        requires
            well_formed(old(self)@),
            old(screen)@.len() == pixel_count(old(self)@),
            may_break_line(old(self)@, c) ==> scroll_ok(old(self)@),
        ensures
            (final(self)@, final(screen)@) == write_char_result(old(self)@, old(screen)@, c),
            well_formed(final(self)@),
    {
        if c == '\n' {
            self.newline(screen);
            return;
        }
        if c == '\u{8}' {
            self.backspace(screen);
            return;
        }
        let (glyph_width, raster) = match glyph(c) {
            Some(g) => g,
            None => return,
        };
        let ghost g = glyph_raster(c)->0;
        let ghost v0 = self@;
        let start_x = self.cursor_x;
        let start_y = self.cursor_y;
        self.cells.push(Cell::new(start_x, start_y, glyph_width));
        proof {
            assert(self@.cells =~= v0.cells.push(CellView { start_x, start_y, width: GLYPH_WIDTH }));
            assert(drawn(self@, screen@, g) =~= drawn(v0, screen@, g));
        }
        self.draw_glyph(screen, raster, Ghost(g));
        self.cursor_x = self.cursor_x + glyph_width;
        if self.cursor_x + glyph_width >= self.width {
            self.newline(screen);
        }
    }

    /// Whether `write_char` can take `c`: the framebuffer can scroll, or
    /// `c` cannot break the line.
    pub fn can_write(&self, c: char) -> (r: bool)
        requires
            well_formed(self@),
        ensures
            r == (may_break_line(self@, c) ==> scroll_ok(self@)),
    {
        if self.height >= RASTER_HEIGHT || self.stride == 0 {
            return true;
        }
        if c == '\n' {
            return false;
        }
        if c == '\u{8}' {
            return true;
        }
        match glyph(c) {
            Some(_) => !(self.cursor_x + 2 * GLYPH_WIDTH >= self.width),
            None => true,
        }
    }

    /// Writes `c` when [`can_write`](Self::can_write) allows it, and
    /// reports whether it did; otherwise nothing changes.
    pub fn write_char_checked(&mut self, screen: &mut [u32], c: char) -> (r: bool)
        requires
            well_formed(old(self)@),
            old(screen)@.len() == pixel_count(old(self)@),
        ensures
            r == (may_break_line(old(self)@, c) ==> scroll_ok(old(self)@)),
            r ==> (final(self)@, final(screen)@) == write_char_result(
                old(self)@,
                old(screen)@,
                c,
            ),
            !r ==> final(self)@ == old(self)@ && final(screen)@ == old(screen)@,
            well_formed(final(self)@),
    {
        if self.can_write(c) {
            self.write_char(screen, c);
            true
        } else {
            false
        }
    }

    /// Writes `s` when the framebuffer can scroll, and reports whether it
    /// did; otherwise nothing changes.
    pub fn write_str_checked(&mut self, screen: &mut [u32], s: &str) -> (r: bool)
        requires
            well_formed(old(self)@),
            old(screen)@.len() == pixel_count(old(self)@),
        ensures
            r == scroll_ok(old(self)@),
            r ==> (final(self)@, final(screen)@) == write_str_result(
                old(self)@,
                old(screen)@,
                s@,
            ),
            !r ==> final(self)@ == old(self)@ && final(screen)@ == old(screen)@,
            well_formed(final(self)@),
    {
        if self.height >= RASTER_HEIGHT || self.stride == 0 {
            self.write_str(screen, s);
            true
        } else {
            false
        }
    }

    /// Writes the characters of `s` one after the other.
    pub fn write_str(&mut self, screen: &mut [u32], s: &str)
        requires
            well_formed(old(self)@),
            old(screen)@.len() == pixel_count(old(self)@),
            scroll_ok(old(self)@) || keeps_line(old(self)@, old(screen)@, s@),
        ensures
            (final(self)@, final(screen)@) == write_str_result(old(self)@, old(screen)@, s@),
            well_formed(final(self)@),
    {
        let ghost v0 = self@;
        let ghost s0 = screen@;
        let ghost cs = s@;
        for c in it: s.chars()
            invariant
                well_formed(self@),
                screen@.len() == pixel_count(self@),
                self@.width == v0.width,
                self@.height == v0.height,
                self@.stride == v0.stride,
                scroll_ok(v0) || keeps_line(v0, s0, cs),
                it.seq() == cs,
                (self@, screen@) == write_str_result(v0, s0, cs.take(it.index() as int)),
        {
            proof {
                assert(cs.take(it.index() + 1).drop_last() =~= cs.take(it.index() as int));
                if !scroll_ok(v0) {
                    let k = it.index() as int;
                    assert(!may_break_line(write_str_result(v0, s0, cs.take(k)).0, cs[k]));
                }
            }
            self.write_char(screen, c);
        }
        proof {
            assert(cs.take(cs.len() as int) =~= cs);
        }
    }
}

} // verus!
