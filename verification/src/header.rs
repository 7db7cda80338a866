//! The fixed-size descriptor that precedes the pixel data in a file.
use vstd::prelude::*;

verus! {

/// Number of bytes a header occupies in a file.
pub const HEADER_LEN: usize = 18;

/// Image type code of an uncompressed true-colour image.
pub const TRUE_COLOR: u8 = 2;

/// Bits stored per pixel: four channels of eight bits.
pub const PIXEL_DEPTH: u8 = 32;

/// The descriptor of an image, field by field in file order.
#[derive(Clone, Copy, Debug, PartialEq, Eq, Structural)]
pub struct Header {
    pub id_length: u8,
    pub color_map_type: u8,
    pub image_type: u8,
    pub c_map_start: u16,
    pub c_map_length: u16,
    pub c_map_depth: u8,
    pub x_offset: u16,
    pub y_offset: u16,
    pub width: u16,
    pub height: u16,
    pub pixel_depth: u8,
    pub image_descriptor: u8,
}

/// The two bytes of `v`, low byte first.
pub open spec fn le_bytes(v: u16) -> Seq<u8> {
    seq![(v % 256) as u8, (v / 256) as u8]
}

impl Header {
    /// The header of an uncompressed true-colour image of the given extents:
    /// no identifier, no colour map, origin zero, 32 bits per pixel.
    pub open spec fn describing(width: u16, height: u16) -> Header {
        Header {
            id_length: 0,
            color_map_type: 0,
            image_type: TRUE_COLOR,
            c_map_start: 0,
            c_map_length: 0,
            c_map_depth: 0,
            x_offset: 0,
            y_offset: 0,
            width,
            height,
            pixel_depth: PIXEL_DEPTH,
            image_descriptor: 0,
        }
    }

    /// The bytes of this header as they stand in a file: the fields in
    /// declaration order, tightly packed, two-byte fields low byte first.
    pub open spec fn bytes(self) -> Seq<u8> {
        seq![self.id_length, self.color_map_type, self.image_type]
            + le_bytes(self.c_map_start)
            + le_bytes(self.c_map_length)
            + seq![self.c_map_depth]
            + le_bytes(self.x_offset)
            + le_bytes(self.y_offset)
            + le_bytes(self.width)
            + le_bytes(self.height)
            + seq![self.pixel_depth, self.image_descriptor]
    }

    /// Builds the header of an uncompressed true-colour image.
    pub fn new(width: u16, height: u16) -> (h: Header)
        ensures
            h == Header::describing(width, height),
    {
        Header {
            id_length: 0,
            color_map_type: 0,
            image_type: TRUE_COLOR,
            c_map_start: 0,
            c_map_length: 0,
            c_map_depth: 0,
            x_offset: 0,
            y_offset: 0,
            width,
            height,
            pixel_depth: PIXEL_DEPTH,
            image_descriptor: 0,
        }
    }
}

} // verus!
