use kernel_graphics::console::{Console, _print};
use kernel_graphics::{Color, GraphicsError, VGABuffer};

const GLYPH_A: [u8; 8] = [0x0C, 0x1E, 0x33, 0x33, 0x3F, 0x33, 0x33, 0x00];

fn console(width: usize, height: usize, bpp: usize) -> Console {
    Console::new(VGABuffer::new(vec![0u8; width * height * bpp], bpp, width, height))
}

fn glyph_pixel(glyph: &[u8; 8], col: usize, row: usize) -> Color {
    if glyph[row] & (1 << col) != 0 {
        Color::GRAYSCALE(255)
    } else {
        Color::GRAYSCALE(0)
    }
}

#[test]
fn clear_then_letter_and_newline() {
    let mut c = console(16, 24, 1);
    assert_eq!(c.surface().as_bytes().len(), 16 * 24);
    c.clear();
    assert_eq!(c.write_str("A\n"), Ok(()));
    assert_eq!(c.cursor(), (0, 8));
    let s = c.surface();
    for row in 0..8 {
        for col in 0..8 {
            assert_eq!(s.get_pixel(col, row), Ok(glyph_pixel(&GLYPH_A, col, row)));
        }
        for col in 8..16 {
            assert_eq!(s.get_pixel(col, row), Ok(Color::GRAYSCALE(0)));
        }
    }
    for row in 8..24 {
        for col in 0..16 {
            assert_eq!(s.get_pixel(col, row), Ok(Color::GRAYSCALE(0)));
        }
    }
}

#[test]
fn one_glyph_past_the_row_wraps_once() {
    let mut c = console(32, 40, 1);
    assert_eq!(c.write_str("ABCD"), Ok(()));
    assert_eq!(c.cursor(), (32, 0));
    assert_eq!(c.write_str("E"), Ok(()));
    assert_eq!(c.cursor(), (8, 8));
}

#[test]
fn width_not_a_multiple_of_the_glyph_wraps_early() {
    let mut c = console(20, 40, 1);
    assert_eq!(c.write_str("AB"), Ok(()));
    assert_eq!(c.cursor(), (16, 0));
    assert_eq!(c.write_str("C"), Ok(()));
    assert_eq!(c.cursor(), (8, 8));
}

#[test]
fn writing_past_the_bottom_scrolls() {
    let mut c = console(8, 24, 1);
    assert_eq!(c.write_str("A\nB\n"), Ok(()));
    assert_eq!(c.cursor(), (0, 16));
    let before: Vec<u8> = c.surface().as_bytes().to_vec();
    assert_eq!(c.write_str("C"), Ok(()));
    let (_, y) = c.cursor();
    assert_eq!(c.cursor(), (8, 8));
    assert!(y + 8 < 24);
    let after = c.surface().as_bytes();
    assert_eq!(&after[0..64], &before[64..128]);
    assert_ne!(&after[0..64], &before[0..64]);
    let mut many = console(8, 24, 1);
    for _ in 0..10 {
        assert_eq!(many.write_str("A\n"), Ok(()));
        assert_eq!(many.write_str("B"), Ok(()));
        let (_, y) = many.cursor();
        assert!(y + 8 < 24);
    }
}

#[test]
fn control_characters_move_the_cursor() {
    let mut c = console(32, 32, 3);
    assert_eq!(c.write_str("AB\r"), Ok(()));
    assert_eq!(c.cursor(), (0, 0));
    c.nl();
    assert_eq!(c.cursor(), (0, 8));
    assert_eq!(c.write_char('x'), Ok(()));
    c.cr();
    assert_eq!(c.cursor(), (0, 8));
}

#[test]
fn missing_glyph_is_an_error() {
    let mut c = console(32, 32, 1);
    assert_eq!(c.write_str("A\u{e9}B"), Err(GraphicsError::GlyphNotFound));
    assert_eq!(c.cursor(), (8, 0));
    assert_eq!(c.write_char('\u{e9}'), Err(GraphicsError::GlyphNotFound));
    assert_eq!(c.put_char('A', None), Err(GraphicsError::GlyphNotFound));
    assert_eq!(c.cursor(), (8, 0));
}

#[test]
fn put_char_draws_the_given_bitmap() {
    let mut c = console(16, 16, 1);
    let glyph = [0x01, 0x80, 0, 0, 0, 0, 0, 0xFF];
    assert_eq!(c.put_char('?', Some(glyph)), Ok(()));
    assert_eq!(c.cursor(), (8, 0));
    let s = c.surface();
    assert_eq!(s.get_pixel(0, 0), Ok(Color::GRAYSCALE(255)));
    assert_eq!(s.get_pixel(1, 0), Ok(Color::GRAYSCALE(0)));
    assert_eq!(s.get_pixel(7, 1), Ok(Color::GRAYSCALE(255)));
    assert_eq!(s.get_pixel(0, 1), Ok(Color::GRAYSCALE(0)));
    for col in 0..8 {
        assert_eq!(s.get_pixel(col, 7), Ok(Color::GRAYSCALE(255)));
    }
}

#[test]
fn font_glyph_reaches_the_surface() {
    let mut c = console(16, 16, 1);
    assert_eq!(c.write_char('A'), Ok(()));
    let s = c.surface();
    for row in 0..8 {
        for col in 0..8 {
            assert_eq!(s.get_pixel(col, row), Ok(glyph_pixel(&GLYPH_A, col, row)));
        }
    }
}

#[test]
fn console_reports_surface_errors() {
    let mut two = console(16, 16, 2);
    assert_eq!(two.write_char('A'), Err(GraphicsError::UnsupportedFormat));
    let mut low = console(16, 8, 1);
    assert_eq!(low.write_char('A'), Err(GraphicsError::OutOfBounds));
    let mut narrow = console(4, 16, 1);
    assert_eq!(narrow.write_char('A'), Err(GraphicsError::OutOfBounds));
    assert_eq!(narrow.write_char('\n'), Ok(()));
    assert_eq!(narrow.cursor(), (0, 8));
}

#[test]
fn scroll_moves_surface_and_cursor() {
    let mut c = console(8, 16, 1);
    assert_eq!(c.scroll(), Err(GraphicsError::OutOfBounds));
    assert_eq!(c.write_char('A'), Ok(()));
    c.nl();
    assert_eq!(c.scroll(), Ok(()));
    assert_eq!(c.cursor(), (0, 0));
}

#[test]
fn print_writes_text() {
    let mut c = console(64, 32, 4);
    assert_eq!(_print(&mut c, "hi 42\n"), Ok(()));
    assert_eq!(c.cursor(), (0, 8));
    assert!(c.surface().as_bytes().iter().any(|b| *b == 255));
    c.clear();
    assert!(c.surface().as_bytes().iter().all(|b| *b == 0));
    assert_eq!(c.cursor(), (0, 0));
}
