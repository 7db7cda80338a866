use tgaimage::color::Rgba;
use tgaimage::demo::{create_test_image, pattern_at, test_float};
use tgaimage::header::Header;
use tgaimage::image::Image;

fn gamma_curve(exponent: f64) -> [u8; 256] {
    let mut curve = [0u8; 256];
    for i in 0..256usize {
        curve[i] = (255.0 * (i as f64 / 255.0).powf(exponent)).round() as u8;
    }
    curve
}

#[test]
fn new_raster_is_transparent_black() {
    let img = Image::new(7, 5);
    assert_eq!(img.width(), 7);
    assert_eq!(img.height(), 5);
    assert_eq!(img.pixels().len(), 35);
    assert!(img.pixels().iter().all(|c| *c == Rgba { r: 0, g: 0, b: 0, a: 0 }));
}

#[test]
fn background_can_be_chosen() {
    let black = Rgba::new(0, 0, 0, 255);
    let img = Image::with_background(3, 2, black);
    assert_eq!(img.pixels().len(), 6);
    assert!(img.pixels().iter().all(|c| *c == black));
}

#[test]
fn empty_raster_has_no_pixels() {
    let img = Image::new(0, 9);
    assert_eq!(img.pixels().len(), 0);
    assert_eq!(img.encode().len(), 18);
}

#[test]
fn named_colours() {
    assert_eq!(Rgba::white(), Rgba { r: 255, g: 255, b: 255, a: 255 });
    assert_eq!(Rgba::transparent_black(), Rgba { r: 0, g: 0, b: 0, a: 0 });
}

#[test]
fn set_pixel_writes_one_cell_in_row_major_order() {
    let mut img = Image::new(4, 3);
    img.set_pixel(1, 2, 10, 20, 30, 40);
    assert_eq!(img.get_pixel(1, 2), Rgba { r: 10, g: 20, b: 30, a: 40 });
    assert_eq!(img.pixels()[1 + 2 * 4], Rgba { r: 10, g: 20, b: 30, a: 40 });
    let changed = img.pixels().iter().filter(|c| **c != Rgba { r: 0, g: 0, b: 0, a: 0 }).count();
    assert_eq!(changed, 1);
    assert_eq!(img.pixels().len(), 12);
}

#[test]
fn set_pixel_reaches_the_last_cell() {
    let mut img = Image::new(640, 480);
    img.set_pixel(639, 479, 1, 2, 3, 4);
    assert_eq!(img.pixels()[640 * 480 - 1], Rgba { r: 1, g: 2, b: 3, a: 4 });
    assert_eq!(img.pixels().len(), 640 * 480);
}

#[test]
fn header_describes_true_colour() {
    let h = Header::new(640, 480);
    assert_eq!(h.id_length, 0);
    assert_eq!(h.color_map_type, 0);
    assert_eq!(h.image_type, 2);
    assert_eq!(h.c_map_start, 0);
    assert_eq!(h.c_map_length, 0);
    assert_eq!(h.c_map_depth, 0);
    assert_eq!(h.x_offset, 0);
    assert_eq!(h.y_offset, 0);
    assert_eq!(h.width, 640);
    assert_eq!(h.height, 480);
    assert_eq!(h.pixel_depth, 32);
    assert_eq!(h.image_descriptor, 0);
    assert_eq!(Image::new(640, 480).header(), h);
}

#[test]
fn header_bytes_are_little_endian() {
    let bytes = Header::new(640, 480).encode();
    assert_eq!(bytes, vec![0, 0, 2, 0, 0, 0, 0, 0, 0, 0, 0, 0, 0x80, 0x02, 0xe0, 0x01, 32, 0]);
}

#[test]
fn header_fields_keep_their_places() {
    let h = Header {
        id_length: 1,
        color_map_type: 2,
        image_type: 3,
        c_map_start: 0x0504,
        c_map_length: 0x0706,
        c_map_depth: 8,
        x_offset: 0x0a09,
        y_offset: 0x0c0b,
        width: 0x0e0d,
        height: 0x100f,
        pixel_depth: 17,
        image_descriptor: 18,
    };
    assert_eq!(h.encode(), (1u8..=18).collect::<Vec<u8>>());
}

#[test]
fn encoded_size_is_header_plus_four_bytes_per_pixel() {
    assert_eq!(Image::new(640, 480).encode().len(), 18 + 4 * 640 * 480);
    assert_eq!(Image::new(1, 1).encode().len(), 22);
    assert_eq!(Image::new(3, 5).encode().len(), 18 + 60);
    assert_eq!(Image::new(300, 1).encode_pixels().len(), 1200);
    assert_eq!(Image::new(300, 1).encode_header().len(), 18);
}

#[test]
fn pixels_are_encoded_in_storage_order() {
    let mut img = Image::new(2, 2);
    img.set_pixel(0, 0, 1, 2, 3, 4);
    img.set_pixel(1, 0, 5, 6, 7, 8);
    img.set_pixel(0, 1, 9, 10, 11, 12);
    img.set_pixel(1, 1, 13, 14, 15, 16);
    assert_eq!(img.encode_pixels(), (1u8..=16).collect::<Vec<u8>>());
    let file = img.encode();
    assert_eq!(&file[..18], &[0, 0, 2, 0, 0, 0, 0, 0, 0, 0, 0, 0, 2, 0, 2, 0, 32, 0]);
    assert_eq!(&file[18..], &(1u8..=16).collect::<Vec<u8>>()[..]);
}

#[test]
fn gamma_one_changes_nothing() {
    let mut img = create_test_image();
    let before = img.pixels().clone();
    img.apply_curve(&gamma_curve(1.0));
    assert_eq!(img.pixels(), &before);
}

#[test]
fn curve_leaves_alpha_alone() {
    let mut img = Image::new(2, 1);
    img.set_pixel(0, 0, 128, 64, 200, 77);
    img.set_pixel(1, 0, 255, 0, 1, 3);
    img.apply_curve(&gamma_curve(2.2));
    assert_eq!(img.get_pixel(0, 0), Rgba { r: 56, g: 12, b: 149, a: 77 });
    assert_eq!(img.get_pixel(1, 0), Rgba { r: 255, g: 0, b: 0, a: 3 });
    assert_eq!(img.pixels().len(), 2);
}

#[test]
fn curve_is_applied_to_each_colour_channel() {
    let mut invert = [0u8; 256];
    for i in 0..256usize {
        invert[i] = 255 - i as u8;
    }
    let mut img = Image::with_background(2, 2, Rgba::new(10, 20, 30, 40));
    img.apply_curve(&invert);
    assert!(img.pixels().iter().all(|c| *c == Rgba { r: 245, g: 235, b: 225, a: 40 }));
}

#[test]
fn two_gamma_passes_are_not_one() {
    let mut twice = Image::with_background(1, 1, Rgba::new(1, 128, 255, 9));
    twice.apply_curve(&gamma_curve(2.2));
    twice.apply_curve(&gamma_curve(1.0 / 2.2));
    let mut once = Image::with_background(1, 1, Rgba::new(1, 128, 255, 9));
    once.apply_curve(&gamma_curve(2.2 * (1.0 / 2.2)));
    assert_eq!(once.get_pixel(0, 0), Rgba { r: 1, g: 128, b: 255, a: 9 });
    assert_eq!(twice.get_pixel(0, 0), Rgba { r: 0, g: 128, b: 255, a: 9 });
}

#[test]
fn pattern_quads() {
    assert_eq!(pattern_at(5, 3), Rgba { r: 6, g: 8, b: 254, a: 124 });
    assert_eq!(pattern_at(0, 0), Rgba { r: 0, g: 0, b: 0, a: 124 });
    assert_eq!(pattern_at(639, 479), Rgba { r: 160, g: 94, b: 96, a: 124 });
    assert_eq!(pattern_at(65535, 65535), Rgba { r: 0, g: 254, b: 0, a: 124 });
}

#[test]
fn pattern_fills_every_cell() {
    let img = create_test_image();
    assert_eq!(img.width(), 640);
    assert_eq!(img.height(), 480);
    assert_eq!(img.get_pixel(5, 3), Rgba { r: 6, g: 8, b: 254, a: 124 });
    assert_eq!(img.get_pixel(639, 479), pattern_at(639, 479));
    assert!(img.pixels().iter().all(|c| c.a == 124));
}

#[test]
fn line_picture_has_its_four_lines() {
    let img = test_float();
    let white = Rgba { r: 255, g: 255, b: 255, a: 255 };
    assert_eq!(img.get_pixel(30, 30), white);
    assert_eq!(img.get_pixel(200, 100), white);
    assert_eq!(img.get_pixel(100, 10), white);
    assert_eq!(img.get_pixel(0, 0), Rgba { r: 0, g: 0, b: 0, a: 0 });
    let count = img.pixels().iter().filter(|c| **c == white).count();
    assert!(count <= 70 + 270 + 200 + 400);
    assert!(count >= 400);
}
