//! Two ready-made pictures: four lines drawn by slope, and a colour pattern
//! that gives every cell a quad computed from its coordinates.
use vstd::prelude::*;
use crate::color::{background, foreground, Rgba};
use crate::image::Image;
use crate::line::span_of;

verus! {

/// Number of columns of the ready-made pictures.
pub const WIDTH: u16 = 640;

/// Number of rows of the ready-made pictures.
pub const HEIGHT: u16 = 480;

/// Alpha of every cell of the colour pattern.
pub const PATTERN_ALPHA: u8 = 124;

/// Whether one of the four lines of the line picture passes through the cell
/// `(x, y)` under the slope rule.
pub open spec fn on_test_lines(x: int, y: int) -> bool {
    ||| span_of(30, 30, 100, 50).slope_covers(x, y)
    ||| span_of(30, 30, 200, 300).slope_covers(x, y)
    ||| span_of(300, 300, 200, 100).slope_covers(x, y)
    ||| span_of(500, 300, 100, 10).slope_covers(x, y)
}

/// The quad of the colour pattern at column `x`, row `y`: red is the
/// exclusive or of the coordinates, green their sum, blue the row minus the
/// column, each reduced modulo 256.
pub open spec fn pattern_quad(x: u16, y: u16) -> Rgba {
    Rgba {
        r: ((x ^ y) % 256) as u8,
        g: ((x + y) % 256) as u8,
        b: ((y - x) % 256) as u8,
        a: PATTERN_ALPHA,
    }
}

/// Computes the quad of the colour pattern at column `x`, row `y`.
pub fn pattern_at(x: u16, y: u16) -> (c: Rgba)
    ensures
        c == pattern_quad(x, y),
{
    let sum: u32 = x as u32 + y as u32;
    let diff: u32 = 65536 + y as u32 - x as u32;
    Rgba {
        r: ((x ^ y) % 256) as u8,
        g: (sum % 256) as u8,
        b: (diff % 256) as u8,
        a: PATTERN_ALPHA,
    }
}

/// A 640 by 480 raster, transparent black but for four white lines drawn by
/// slope.
pub fn test_float() -> (img: Image)
    ensures
        img.wf(),
        img.spec_width() == WIDTH,
        img.spec_height() == HEIGHT,
        forall|x: int, y: int|
            img.contains(x, y) ==> #[trigger] img.pixel(x, y) == (if on_test_lines(x, y) {
                foreground()
            } else {
                background()
            }),
{
    let mut img = Image::new(WIDTH, HEIGHT);
    proof {
        img.lemma_fresh(background());
    }
    img.draw_line_bresenham_with_float(30, 30, 100, 50);
    img.draw_line_bresenham_with_float(30, 30, 200, 300);
    img.draw_line_bresenham_with_float(300, 300, 200, 100);
    img.draw_line_bresenham_with_float(500, 300, 100, 10);
    img
}

/// A 640 by 480 raster that holds the colour pattern.
pub fn create_test_image() -> (img: Image)
    ensures
        img.wf(),
        img.spec_width() == WIDTH,
        img.spec_height() == HEIGHT,
        forall|x: int, y: int|
            img.contains(x, y) ==> #[trigger] img.pixel(x, y) == pattern_quad(x as u16, y as u16),
{
    let mut img = Image::new(WIDTH, HEIGHT);
    let mut y: u16 = 0;
    while y < HEIGHT
        invariant
            y <= HEIGHT,
            img.wf(),
            img.spec_width() == WIDTH,
            img.spec_height() == HEIGHT,
            forall|u: int, v: int|
                img.contains(u, v) && v < y ==> #[trigger] img.pixel(u, v) == pattern_quad(
                    u as u16,
                    v as u16,
                ),
        decreases HEIGHT - y,
    {
        let mut x: u16 = 0;
        while x < WIDTH
            invariant
                y < HEIGHT,
                x <= WIDTH,
                img.wf(),
                img.spec_width() == WIDTH,
                img.spec_height() == HEIGHT,
                forall|u: int, v: int|
                    img.contains(u, v) && (v < y || (v == y && u < x)) ==> #[trigger] img.pixel(
                        u,
                        v,
                    ) == pattern_quad(u as u16, v as u16),
            decreases WIDTH - x,
        {
            let c = pattern_at(x, y);
            img.set_pixel(x, y, c.r, c.g, c.b, c.a);
            x = x + 1;
        }
        y = y + 1;
    }
    img
}

} // verus!
