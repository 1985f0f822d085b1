use aether::display::cell::Cell;
use aether::display::framebuffer::FrameBuffer;
use aether::display::greet::{brand_bytes, CpuidResult};
use noto_sans_mono_bitmap::{get_raster, FontWeight, RasterHeight};

fn gray(b: u8) -> u32 {
    let v = b as u32;
    (v << 16) | (v << 8) | v
}

fn expected_glyph(c: char, width: usize, height: usize, stride: usize, x0: usize, y0: usize) -> Vec<u32> {
    let mut screen = vec![0u32; stride * height];
    let g = get_raster(c, FontWeight::Regular, RasterHeight::Size20).unwrap();
    for (row, pixels) in g.raster().iter().enumerate() {
        for (col, &p) in pixels.iter().enumerate() {
            let (x, y) = (x0 + col, y0 + row);
            if p != 0 && x < width && y < height {
                screen[y * stride + x] = gray(p);
            }
        }
    }
    screen
}

#[test]
fn cell_records_position_and_width() {
    let c = Cell::new(3, 40, 9);
    assert_eq!(c.start_x(), 3);
    assert_eq!(c.start_y(), 40);
    assert_eq!(c.width(), 9);
}

#[test]
fn new_framebuffer_reports_geometry() {
    let fb = FrameBuffer::new(100, 60, 128);
    assert_eq!(fb.width(), 100);
    assert_eq!(fb.height(), 60);
}

#[test]
fn glyph_is_drawn_in_gray_at_cursor() {
    let (w, h, s) = (100, 60, 128);
    let mut fb = FrameBuffer::new(w, h, s);
    let mut screen = vec![0u32; s * h];
    fb.write_char(&mut screen, 'A');
    assert_eq!(screen, expected_glyph('A', w, h, s, 0, 0));
    assert!(screen.iter().any(|&p| p != 0));
    // The next glyph starts one glyph width to the right.
    fb.write_char(&mut screen, 'B');
    let mut both = expected_glyph('A', w, h, s, 0, 0);
    for (i, p) in expected_glyph('B', w, h, s, 9, 0).into_iter().enumerate() {
        if p != 0 {
            both[i] = p;
        }
    }
    assert_eq!(screen, both);
}

#[test]
fn pixel_value_repeats_intensity_in_each_colour_byte() {
    let mut fb = FrameBuffer::new(20, 20, 20);
    let mut screen = vec![0u32; 400];
    fb.write_char(&mut screen, '#');
    for &p in &screen {
        let b = p & 0xFF;
        assert_eq!(p, b * 0x10101);
    }
}

#[test]
fn backspace_erases_last_glyph() {
    let (w, h, s) = (100, 60, 100);
    let mut fb = FrameBuffer::new(w, h, s);
    let mut screen = vec![0u32; s * h];
    fb.write_char(&mut screen, 'A');
    let after_a = screen.clone();
    fb.write_char(&mut screen, 'W');
    fb.write_char(&mut screen, '\u{8}');
    assert_eq!(screen, after_a);
    fb.write_char(&mut screen, '\u{8}');
    assert!(screen.iter().all(|&p| p == 0));
    // With no glyph left on the line, a backspace changes nothing.
    fb.write_char(&mut screen, '\u{8}');
    assert!(screen.iter().all(|&p| p == 0));
    // The cursor is back at the left edge.
    fb.write_char(&mut screen, 'A');
    assert_eq!(screen, after_a);
}

#[test]
fn backspace_blacks_out_whole_cell() {
    let (w, h, s) = (100, 60, 100);
    let mut fb = FrameBuffer::new(w, h, s);
    let mut screen = vec![7u32; s * h];
    fb.write_char(&mut screen, 'A');
    fb.write_char(&mut screen, '\u{8}');
    for y in 0..h {
        for x in 0..w {
            let inside = x < 9 && y < 20;
            assert_eq!(screen[y * s + x], if inside { 0 } else { 7 });
        }
    }
}

#[test]
fn newline_moves_one_line_down() {
    let (w, h, s) = (100, 60, 100);
    let mut fb = FrameBuffer::new(w, h, s);
    let mut screen = vec![0u32; s * h];
    fb.write_str(&mut screen, "\nA");
    assert_eq!(screen, expected_glyph('A', w, h, s, 0, 20));
    // A line break forgets the line's cells: backspace does nothing.
    let before = screen.clone();
    fb.write_str(&mut screen, "\n\u{8}");
    assert_eq!(screen, before);
}

#[test]
fn scrolls_when_no_line_is_left() {
    let (w, h, s) = (100, 40, 100);
    let mut fb = FrameBuffer::new(w, h, s);
    let mut screen = vec![0u32; s * h];
    // Second line, then a line break with no room: the screen scrolls.
    fb.write_str(&mut screen, "\nA");
    let drawn = screen.clone();
    fb.write_char(&mut screen, '\n');
    let mut expected = vec![0u32; s * h];
    expected[..20 * s].copy_from_slice(&drawn[20 * s..]);
    assert_eq!(screen, expected);
    assert_eq!(screen, expected_glyph('A', w, h, s, 0, 0));
}

#[test]
fn wraps_before_the_right_edge() {
    // 30 pixels wide: glyphs start at x = 0, 9 and 18; after the third the
    // cursor (27) plus a glyph width reaches the edge, so the line breaks.
    let (w, h, s) = (30, 60, 30);
    let mut fb = FrameBuffer::new(w, h, s);
    let mut screen = vec![0u32; s * h];
    fb.write_str(&mut screen, "AABC");
    let mut expected = vec![0u32; s * h];
    for (c, x, y) in [('A', 0, 0), ('A', 9, 0), ('B', 18, 0), ('C', 0, 20)] {
        for (i, p) in expected_glyph(c, w, h, s, x, y).into_iter().enumerate() {
            if p != 0 {
                expected[i] = p;
            }
        }
    }
    assert_eq!(screen, expected);
}

#[test]
fn unknown_characters_are_skipped() {
    let mut fb = FrameBuffer::new(100, 60, 100);
    let mut screen = vec![0u32; 6000];
    fb.write_char(&mut screen, '\u{1}');
    assert!(screen.iter().all(|&p| p == 0));
    fb.write_char(&mut screen, 'A');
    assert_eq!(screen, expected_glyph('A', 100, 60, 100, 0, 0));
}

#[test]
fn glyph_clipped_at_bottom_edge() {
    let (w, h, s) = (100, 25, 100);
    let mut fb = FrameBuffer::new(w, h, s);
    let mut screen = vec![0u32; s * h];
    fb.write_str(&mut screen, "\nM");
    assert_eq!(screen, expected_glyph('M', w, h, s, 0, 20));
    assert!(screen[20 * s..].iter().any(|&p| p != 0));
}

#[test]
fn brand_bytes_are_little_endian_registers() {
    let leaves = [
        CpuidResult { eax: 0x6c65746e, ebx: 0x2952286c, ecx: 0x726f4320, edx: 0x4d542865 },
        CpuidResult { eax: 0x04030201, ebx: 0, ecx: 0xFFFFFFFF, edx: 0x80000000 },
        CpuidResult { eax: 0x20202020, ebx: 0x20202020, ecx: 0x20202020, edx: 0x00202020 },
    ];
    let bytes = brand_bytes(&leaves);
    assert_eq!(bytes.len(), 48);
    assert_eq!(&bytes[0..16], b"ntell(R) Core(TM");
    assert_eq!(&bytes[16..20], &[1, 2, 3, 4]);
    assert_eq!(&bytes[20..24], &[0, 0, 0, 0]);
    assert_eq!(&bytes[24..28], &[0xFF; 4]);
    assert_eq!(&bytes[28..32], &[0, 0, 0, 0x80]);
    assert_eq!(&bytes[32..48], b"               \0");
    assert!(brand_bytes(&[]).is_empty());
}

#[test]
fn short_framebuffer_takes_glyphs_that_keep_the_line() {
    let (w, h, s) = (100, 10, 128);
    let mut fb = FrameBuffer::new(w, h, s);
    let mut screen = vec![0u32; s * h];
    assert!(fb.can_write('A'));
    assert!(fb.can_write('\u{8}'));
    assert!(!fb.can_write('\n'));
    fb.write_char(&mut screen, 'A');
    assert_eq!(screen, expected_glyph('A', w, h, s, 0, 0));
}

#[test]
fn short_framebuffer_refuses_a_wrapping_glyph() {
    // 0 + 18 >= 20 does not hold, so 'A' keeps the line.
    let fb = FrameBuffer::new(20, 10, 20);
    assert!(fb.can_write('A'));
    let fb = FrameBuffer::new(18, 10, 20);
    assert!(!fb.can_write('A'));
    let tall = FrameBuffer::new(18, 20, 20);
    assert!(tall.can_write('\n'));
    assert!(tall.can_write('A'));
}

#[test]
fn character_without_glyph_is_skipped_near_the_edge() {
    let c = '\u{10FFFF}';
    assert!(get_raster(c, FontWeight::Regular, RasterHeight::Size20).is_none());
    let (w, h, s) = (18, 10, 20);
    let mut fb = FrameBuffer::new(w, h, s);
    let mut screen = vec![7u32; s * h];
    assert!(fb.can_write(c));
    assert!(fb.write_char_checked(&mut screen, c));
    assert_eq!(screen, vec![7u32; s * h]);
}

#[test]
fn checked_writes_refuse_to_scroll_a_short_framebuffer() {
    let (w, h, s) = (100, 10, 128);
    let mut fb = FrameBuffer::new(w, h, s);
    let mut screen = vec![0u32; s * h];
    assert!(!fb.write_char_checked(&mut screen, '\n'));
    assert!(!fb.write_str_checked(&mut screen, "A"));
    assert_eq!(screen, vec![0u32; s * h]);
    // Character by character, a glyph that keeps the line is written.
    assert!(fb.write_char_checked(&mut screen, 'A'));
    assert_eq!(screen, expected_glyph('A', w, h, s, 0, 0));
    // Where the screen can scroll, a whole string goes through.
    let mut tall = FrameBuffer::new(w, 40, s);
    let mut pixels = vec![0u32; s * 40];
    assert!(tall.write_str_checked(&mut pixels, "A\nB"));
}
