//! The byte layout of a file: the header, then the pixels row by row, four
//! bytes each in storage order.
use vstd::prelude::*;
use crate::color::Rgba;
use crate::header::{le_bytes, Header, HEADER_LEN};
use crate::image::Image;

verus! {

/// The bytes of a pixel sequence: each quad as red, green, blue, alpha, one
/// quad after the other.
pub open spec fn pixel_bytes(pixels: Seq<Rgba>) -> Seq<u8> {
    Seq::new((4 * pixels.len()) as nat, |i: int| pixels[i / 4].channel(i % 4))
}

/// The bytes of a whole file: the header followed at once by the pixels.
pub open spec fn file_bytes(header: Header, pixels: Seq<Rgba>) -> Seq<u8> {
    header.bytes() + pixel_bytes(pixels)
}

/// Appends the two bytes of `v`, low byte first.
fn push_le(out: &mut Vec<u8>, v: u16)
    ensures
        final(out)@ == old(out)@ + le_bytes(v),
{
    out.push((v % 256) as u8);
    out.push((v / 256) as u8);
    assert(out@ =~= old(out)@ + le_bytes(v));
}

impl Header {
    /// The eighteen bytes of this header in file order.
    pub fn encode(&self) -> (out: Vec<u8>)
        ensures
            out@ == self.bytes(),
            out@.len() == HEADER_LEN,
    {
        let mut out: Vec<u8> = Vec::with_capacity(HEADER_LEN);
        out.push(self.id_length);
        out.push(self.color_map_type);
        out.push(self.image_type);
        push_le(&mut out, self.c_map_start);
        push_le(&mut out, self.c_map_length);
        out.push(self.c_map_depth);
        push_le(&mut out, self.x_offset);
        push_le(&mut out, self.y_offset);
        push_le(&mut out, self.width);
        push_le(&mut out, self.height);
        out.push(self.pixel_depth);
        out.push(self.image_descriptor);
        assert(out@ =~= self.bytes());
        out
    }
}

impl Image {
    /// The header of this raster as it stands at the start of a file.
    pub fn encode_header(&self) -> (out: Vec<u8>)
        ensures
            out@ == self.spec_header().bytes(),
            out@.len() == HEADER_LEN,
    {
        self.header().encode()
    }

    /// The pixels of this raster as they follow the header in a file.
    pub fn encode_pixels(&self) -> (out: Vec<u8>)
        ensures
            out@ == pixel_bytes(self@),
            out@.len() == 4 * self@.len(),
    {
        let pixels = self.pixels();
        let n: usize = pixels.len();
        let mut out: Vec<u8> = Vec::new();
        let mut i: usize = 0;
        while i < n
            invariant
                i <= n,
                n == pixels@.len(),
                pixels@ == self@,
                out@.len() == 4 * i,
                forall|j: int| 0 <= j < 4 * i ==> out@[j] == pixels@[j / 4].channel(j % 4),
            decreases n - i,
        {
            let c: Rgba = pixels[i];
            out.push(c.r);
            out.push(c.g);
            out.push(c.b);
            out.push(c.a);
            i = i + 1;
        }
        assert(out@ =~= pixel_bytes(self@));
        out
    }

    /// The whole file for this raster: eighteen header bytes, then four bytes
    /// for each pixel.
    pub fn encode(&self) -> (out: Vec<u8>)
        requires
            self.wf(),
        ensures
            out@ == file_bytes(Header::describing(self.spec_width() as u16, self.spec_height() as u16), self@),
            out@.len() == 18 + 4 * self.spec_width() * self.spec_height(),
    {
        proof {
            self.lemma_wf();
        }
        let mut out = self.encode_header();
        let mut body = self.encode_pixels();
        out.append(&mut body);
        assert(4 * (self.spec_width() * self.spec_height()) == 4 * self.spec_width()
            * self.spec_height()) by (nonlinear_arith);
        out
    }
}

} // verus!
