use tinyrender::array2d::Array2d;
use tinyrender::geometry::Convert;
use tinyrender::image::{Color, ColorE, Image, PixelOutcome};

#[test]
fn array2d_new_fills() {
    let a = Array2d::new(7u32, 3, 2);
    assert_eq!(a.raw_data().len(), 6);
    assert!(a.raw_data().iter().all(|&v| v == 7));
    assert_eq!(a.get(2usize, 1usize), Some(&7));
    assert_eq!(a.get(0usize, 2usize), None);
    assert_eq!(a.get(3usize, 1usize), None);
}

#[test]
fn array2d_get_mut_then_get() {
    let mut a = Array2d::new(0i32, 4, 3);
    *a.get_mut(1usize, 2usize).unwrap() = 9;
    assert_eq!(a.get(1usize, 2usize), Some(&9));
    assert_eq!(a.raw_data()[2 * 4 + 1], 9);
    assert_eq!(a.raw_data().iter().filter(|&&v| v == 9).count(), 1);
    assert!(a.get_mut(0usize, 3usize).is_none());
}

#[test]
fn array2d_index_runs_past_row_end() {
    // Column 5 of row 0 in a 4-wide grid is cell 5, which is column 1 of row 1.
    let mut a = Array2d::new(0u8, 4, 2);
    *a.get_mut(5usize, 0usize).unwrap() = 1;
    assert_eq!(a.get(1usize, 1usize), Some(&1));
}

#[test]
fn array2d_i32_coordinates() {
    let mut a = Array2d::new(0u8, 2, 2);
    *a.get_mut(1i32, 1i32).unwrap() = 3;
    assert_eq!(a.get(1i32, 1i32), Some(&3));
}

#[test]
fn from_rgb_packs_channels() {
    assert_eq!(Color::from_rgb(0, 0, 0).c, 0xff000000);
    assert_eq!(Color::from_rgb(0x12, 0x34, 0x56).c, 0xff123456);
    assert_eq!(Color::from_rgb(255, 255, 255).c, 0xffffffff);
    // Channels of 256 or more spill into the neighbouring bytes.
    assert_eq!(Color::from_rgb(0, 0x100, 0).c, 0xff010000);
}

#[test]
fn from_rgb_channels_read_back() {
    for (r, g, b) in [(1u32, 2u32, 3u32), (200, 0, 17), (255, 128, 64)] {
        let c = Color::from_rgb(r, g, b).c;
        assert_eq!(c >> 24, 0xff);
        assert_eq!((c >> 16) & 0xff, r);
        assert_eq!((c >> 8) & 0xff, g);
        assert_eq!(c & 0xff, b);
    }
}

#[test]
fn named_colors() {
    let c = |e: ColorE| -> u32 { Convert::<Color>::convert(e).c };
    assert_eq!(c(ColorE::Green), 0xff00ff00);
    assert_eq!(c(ColorE::Yellow), 0xffffff00);
    assert_eq!(c(ColorE::White), 0xffffffff);
    assert_eq!(c(ColorE::Black), 0xff000000);
    assert_eq!(c(ColorE::Blue), 0xff0000ff);
    assert_eq!(c(ColorE::Red), 0xffff0000);
}

#[test]
fn image_new_fills_with_color() {
    let img = Image::new(3, 2, ColorE::Red);
    assert_eq!(img.w, 3);
    assert_eq!(img.h, 2);
    assert_eq!(img.data.raw_data().len(), 6);
    assert!(img.data.raw_data().iter().all(|&v| v == 0xffff0000));
    let img2 = Image::new(2, 2, Color { c: 5 });
    assert!(img2.data.raw_data().iter().all(|&v| v == 5));
}

#[test]
fn image_from_buffer_keeps_array() {
    let img = Image::from_buffer(2, 1, Array2d::new(4u32, 2, 1));
    assert_eq!((img.w, img.h), (2, 1));
    assert_eq!(img.data.get(1usize, 0usize), Some(&4));
}

#[test]
fn draw_pixel_writes_nearer_pixels() {
    let mut img = Image::new(4, 3, ColorE::Black);
    let mut zb = Array2d::new(i32::MIN, 4, 3);
    let r = img.draw_pixel(1, 1, 10, ColorE::White, &mut zb);
    assert_eq!(r, PixelOutcome::Drawn);
    // Row 1 from the bottom of a 3-row picture is storage row 3 - 1 - 1 = 1.
    assert_eq!(img.data.get(1usize, 1usize), Some(&0xffffffff));
    assert_eq!(zb.get(1usize, 1usize), Some(&10));
    // Farther or equal depth is hidden.
    assert_eq!(img.draw_pixel(1, 1, 10, ColorE::Red, &mut zb), PixelOutcome::Hidden);
    assert_eq!(img.draw_pixel(1, 1, 3, ColorE::Red, &mut zb), PixelOutcome::Hidden);
    assert_eq!(img.data.get(1usize, 1usize), Some(&0xffffffff));
    // Nearer depth wins.
    assert_eq!(img.draw_pixel(1, 1, 11, ColorE::Red, &mut zb), PixelOutcome::Drawn);
    assert_eq!(img.data.get(1usize, 1usize), Some(&0xffff0000));
    assert_eq!(zb.get(1usize, 1usize), Some(&11));
}

#[test]
fn draw_pixel_rows_count_from_bottom() {
    let mut img = Image::new(2, 3, ColorE::Black);
    let mut zb = Array2d::new(0i32, 2, 3);
    assert_eq!(img.draw_pixel(0, 2, 1, ColorE::Blue, &mut zb), PixelOutcome::Drawn);
    assert_eq!(img.data.get(0usize, 0usize), Some(&0xff0000ff));
}

#[test]
fn draw_pixel_clips() {
    let mut img = Image::new(4, 3, ColorE::Black);
    let mut zb = Array2d::new(0i32, 4, 3);
    assert_eq!(img.draw_pixel(-1, 1, 5, ColorE::Red, &mut zb), PixelOutcome::Clipped);
    assert_eq!(img.draw_pixel(4, 1, 5, ColorE::Red, &mut zb), PixelOutcome::Clipped);
    assert_eq!(img.draw_pixel(1, 0, 5, ColorE::Red, &mut zb), PixelOutcome::Clipped);
    assert_eq!(img.draw_pixel(1, 3, 5, ColorE::Red, &mut zb), PixelOutcome::Clipped);
    assert!(img.data.raw_data().iter().all(|&v| v == 0xff000000));
    assert!(zb.raw_data().iter().all(|&v| v == 0));
}

#[test]
fn draw_pixel_without_cells() {
    let mut img = Image::from_buffer(4, 3, Array2d::new(0u32, 4, 1));
    let mut zb = Array2d::new(0i32, 4, 3);
    assert_eq!(img.draw_pixel(1, 1, 5, ColorE::Red, &mut zb), PixelOutcome::NoCell);
    let mut img2 = Image::new(4, 3, ColorE::Black);
    let mut small = Array2d::new(0i32, 1, 1);
    assert_eq!(img2.draw_pixel(1, 1, 5, ColorE::Red, &mut small), PixelOutcome::NoCell);
    assert!(img2.data.raw_data().iter().all(|&v| v == 0xff000000));
}

#[test]
fn draw_pixel_with_float_depth() {
    let mut img = Image::new(2, 2, ColorE::Black);
    let mut zb = Array2d::new(f32::MIN, 2, 2);
    assert_eq!(img.draw_pixel(0, 1, 0.5f32, ColorE::Green, &mut zb), PixelOutcome::Drawn);
    assert_eq!(img.draw_pixel(0, 1, f32::NAN, ColorE::Red, &mut zb), PixelOutcome::Hidden);
}

#[test]
fn array2d_every_cell_inside_is_found() {
    let a = Array2d::new(1u16, 3, 4);
    assert_eq!(a.width(), 3);
    assert_eq!(a.height(), 4);
    for y in 0..4usize {
        for x in 0..3usize {
            assert_eq!(a.get(x, y), Some(&1));
        }
    }
}
