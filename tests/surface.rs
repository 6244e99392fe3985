use kernel_graphics::color::encode_color;
use kernel_graphics::{Color, GraphicsError, VGABuffer};

fn blank(width: usize, height: usize, bpp: usize) -> VGABuffer {
    VGABuffer::new(vec![0u8; width * height * bpp], bpp, width, height)
}

#[test]
fn encode_color_layouts() {
    assert_eq!(encode_color(Color::GRAYSCALE(9), 1), Ok(vec![9]));
    assert_eq!(encode_color(Color::RGB(10, 20, 33), 1), Ok(vec![21]));
    assert_eq!(encode_color(Color::BGR(10, 20, 33), 1), Ok(vec![21]));
    assert_eq!(encode_color(Color::RGB(1, 2, 3), 3), Ok(vec![1, 2, 3]));
    assert_eq!(encode_color(Color::BGR(1, 2, 3), 3), Ok(vec![3, 2, 1]));
    assert_eq!(encode_color(Color::GRAYSCALE(7), 3), Ok(vec![7, 7, 7]));
    assert_eq!(encode_color(Color::RGB(1, 2, 3), 4), Ok(vec![3, 2, 1, 0]));
    assert_eq!(encode_color(Color::BGR(1, 2, 3), 4), Ok(vec![1, 2, 3, 0]));
    assert_eq!(encode_color(Color::GRAYSCALE(5), 4), Ok(vec![5, 5, 5, 0]));
    assert_eq!(encode_color(Color::RGB(300, 256, 511), 3), Ok(vec![44, 0, 255]));
    assert_eq!(encode_color(Color::RGB(255, 255, 255), 1), Ok(vec![255]));
    assert_eq!(encode_color(Color::RGB(1, 2, 3), 2), Err(GraphicsError::UnsupportedFormat));
}

#[test]
fn set_then_get_three_byte_pixels() {
    let mut s = blank(4, 3, 3);
    assert_eq!(s.set_pixel(2, 1, Color::RGB(10, 20, 30)), Ok(()));
    assert_eq!(s.get_pixel(2, 1), Ok(Color::RGB(10, 20, 30)));
    assert_eq!(s.set_pixel(3, 2, Color::BGR(1, 2, 3)), Ok(()));
    assert_eq!(s.get_pixel(3, 2), Ok(Color::RGB(3, 2, 1)));
    assert_eq!(s.set_pixel(0, 0, Color::GRAYSCALE(7)), Ok(()));
    assert_eq!(s.get_pixel(0, 0), Ok(Color::RGB(7, 7, 7)));
    assert_eq!(s.get_pixel(1, 0), Ok(Color::RGB(0, 0, 0)));
    let offset = (1 * 4 + 2) * 3;
    assert_eq!(&s.as_bytes()[offset..offset + 3], &[10, 20, 30]);
}

#[test]
fn set_then_get_one_byte_pixels() {
    let mut s = blank(5, 2, 1);
    assert_eq!(s.set_pixel(4, 1, Color::GRAYSCALE(200)), Ok(()));
    assert_eq!(s.get_pixel(4, 1), Ok(Color::GRAYSCALE(200)));
    assert_eq!(s.set_pixel(0, 1, Color::RGB(10, 20, 33)), Ok(()));
    assert_eq!(s.get_pixel(0, 1), Ok(Color::GRAYSCALE(21)));
    assert_eq!(s.set_pixel(1, 1, Color::BGR(90, 0, 0)), Ok(()));
    assert_eq!(s.get_pixel(1, 1), Ok(Color::GRAYSCALE(30)));
}

#[test]
fn four_byte_pixels_write_but_do_not_read() {
    let mut s = blank(2, 2, 4);
    assert_eq!(s.set_pixel(1, 1, Color::RGB(1, 2, 3)), Ok(()));
    assert_eq!(&s.as_bytes()[12..16], &[3, 2, 1, 0]);
    assert_eq!(s.get_pixel(1, 1), Err(GraphicsError::UnsupportedFormat));
}

#[test]
fn out_of_bounds_pixels_are_refused() {
    let mut s = blank(3, 2, 3);
    assert_eq!(s.set_pixel(3, 0, Color::RGB(1, 1, 1)), Err(GraphicsError::OutOfBounds));
    assert_eq!(s.set_pixel(0, 2, Color::RGB(1, 1, 1)), Err(GraphicsError::OutOfBounds));
    assert!(s.as_bytes().iter().all(|b| *b == 0));
    assert_eq!(s.get_pixel(0, 2), Err(GraphicsError::OutOfBounds));
    assert_eq!(s.set_pixel(2, 1, Color::RGB(1, 1, 1)), Ok(()));
}

#[test]
fn unsupported_format_is_refused() {
    let mut s = blank(2, 2, 2);
    assert_eq!(s.fill(Color::GRAYSCALE(1)), Err(GraphicsError::UnsupportedFormat));
    assert_eq!(s.set_pixel(0, 0, Color::GRAYSCALE(1)), Err(GraphicsError::UnsupportedFormat));
    assert_eq!(s.get_pixel(0, 0), Err(GraphicsError::UnsupportedFormat));
    let row: &[Color] = &[Color::GRAYSCALE(1)];
    assert_eq!(s.write_pixels(&[row]), Err(GraphicsError::UnsupportedFormat));
    assert!(s.as_bytes().iter().all(|b| *b == 0));
}

#[test]
fn fill_then_get_every_pixel() {
    let mut s = blank(3, 4, 3);
    assert_eq!(s.fill(Color::RGB(9, 8, 7)), Ok(()));
    for y in 0..4 {
        for x in 0..3 {
            assert_eq!(s.get_pixel(x, y), Ok(Color::RGB(9, 8, 7)));
        }
    }
    let mut g = blank(3, 4, 1);
    assert_eq!(g.fill(Color::RGB(30, 60, 90)), Ok(()));
    for y in 0..4 {
        for x in 0..3 {
            assert_eq!(g.get_pixel(x, y), Ok(Color::GRAYSCALE(60)));
        }
    }
    let mut w = blank(2, 1, 4);
    assert_eq!(w.fill(Color::BGR(1, 2, 3)), Ok(()));
    assert_eq!(w.as_bytes(), &[1, 2, 3, 0, 1, 2, 3, 0]);
}

#[test]
fn clear_matches_fill_with_black() {
    for bpp in [1usize, 3, 4] {
        let mut a = blank(3, 2, bpp);
        let mut b = blank(3, 2, bpp);
        assert_eq!(a.fill(Color::RGB(200, 100, 50)), Ok(()));
        assert_eq!(b.fill(Color::RGB(200, 100, 50)), Ok(()));
        a.clear();
        assert_eq!(b.fill(Color::GRAYSCALE(0)), Ok(()));
        assert_eq!(a.as_bytes(), b.as_bytes());
        assert!(a.as_bytes().iter().all(|v| *v == 0));
    }
}

#[test]
fn shift_up_moves_rows() {
    let bytes: Vec<u8> = (0..24u8).collect();
    let mut s = VGABuffer::new(bytes, 3, 2, 4);
    assert_eq!(s.shift_up(1), Ok(()));
    let out = s.as_bytes().to_vec();
    assert_eq!(&out[0..18], &(6..24u8).collect::<Vec<u8>>()[..]);
    assert_eq!(&out[18..24], &(18..24u8).collect::<Vec<u8>>()[..]);
    assert_eq!(s.shift_up(5), Err(GraphicsError::OutOfBounds));
    assert_eq!(s.as_bytes(), &out[..]);
    assert_eq!(s.shift_up(0), Ok(()));
    assert_eq!(s.as_bytes(), &out[..]);
    assert_eq!(s.shift_up(4), Ok(()));
    assert_eq!(s.as_bytes(), &out[..]);
}

#[test]
fn write_pixels_at_then_get() {
    let mut s = blank(4, 4, 3);
    let r0: &[Color] = &[Color::RGB(1, 2, 3), Color::RGB(4, 5, 6)];
    let r1: &[Color] = &[Color::RGB(7, 8, 9)];
    assert_eq!(s.write_pixels_at(2, 1, &[r0, r1]), Ok(()));
    assert_eq!(s.get_pixel(2, 1), Ok(Color::RGB(1, 2, 3)));
    assert_eq!(s.get_pixel(3, 1), Ok(Color::RGB(4, 5, 6)));
    assert_eq!(s.get_pixel(2, 2), Ok(Color::RGB(7, 8, 9)));
    assert_eq!(s.get_pixel(3, 2), Ok(Color::RGB(0, 0, 0)));
    assert_eq!(s.get_pixel(1, 1), Ok(Color::RGB(0, 0, 0)));

    let mut g = blank(3, 3, 1);
    let row: &[Color] = &[Color::GRAYSCALE(5), Color::GRAYSCALE(6), Color::GRAYSCALE(7)];
    assert_eq!(g.write_pixels(&[row, row]), Ok(()));
    assert_eq!(g.as_bytes(), &[5, 6, 7, 5, 6, 7, 0, 0, 0]);
}

#[test]
fn write_pixels_at_refuses_blocks_off_the_surface() {
    let mut s = blank(4, 4, 1);
    let wide: &[Color] = &[Color::GRAYSCALE(1); 3];
    assert_eq!(s.write_pixels_at(2, 0, &[wide]), Err(GraphicsError::OutOfBounds));
    let one: &[Color] = &[Color::GRAYSCALE(1)];
    assert_eq!(s.write_pixels_at(0, 3, &[one, one]), Err(GraphicsError::OutOfBounds));
    assert!(s.as_bytes().iter().all(|b| *b == 0));
    assert_eq!(s.write_pixels_at(3, 3, &[one]), Ok(()));
    assert_eq!(s.as_bytes()[15], 1);
}

#[test]
fn four_byte_block_uses_the_common_packing() {
    let mut s = blank(2, 1, 4);
    let row: &[Color] = &[Color::RGB(1, 2, 3), Color::GRAYSCALE(9)];
    assert_eq!(s.write_pixels_at(0, 0, &[row]), Ok(()));
    assert_eq!(s.as_bytes(), &[3, 2, 1, 0, 9, 9, 9, 0]);
}
