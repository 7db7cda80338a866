//! The pixel buffer: a row-major raster of colour quads with its header.
use vstd::prelude::*;
use crate::color::{background, is_identity_curve, Rgba};
use crate::header::Header;

verus! {

/// A raster of `width * height` colour quads, stored row by row from the top
/// left, together with the header that describes it.
pub struct Image {
    header: Header,
    data: Vec<Rgba>,
}

impl View for Image {
    type V = Seq<Rgba>;

    /// The pixels in storage order.
    closed spec fn view(&self) -> Seq<Rgba> {
        self.data@
    }
}

/// Position of column `x`, row `y` in a row-major raster `width` wide.
pub open spec fn offset(width: int, x: int, y: int) -> int {
    x + y * width
}

/// Inside a raster of the given extents every cell has an offset of its own,
/// and that offset lies below `width * height`.
pub proof fn lemma_offset_in_range(width: int, height: int, x: int, y: int)
    requires
        0 <= x < width,
        0 <= y < height,
    ensures
        0 <= offset(width, x, y) < width * height,
{
    assert(y * width <= (height - 1) * width) by (nonlinear_arith)
        requires
            0 <= y <= height - 1,
            0 < width,
    ;
    assert((height - 1) * width == width * height - width) by (nonlinear_arith);
    assert(0 <= y * width) by (nonlinear_arith)
        requires
            0 <= y,
            0 < width,
    ;
}

/// Two cells of one raster share an offset only if they are the same cell.
pub proof fn lemma_offset_injective(width: int, x: int, y: int, u: int, v: int)
    requires
        0 <= x < width,
        0 <= u < width,
        offset(width, x, y) == offset(width, u, v),
    ensures
        x == u,
        y == v,
{
    assert(y == v) by (nonlinear_arith)
        requires
            0 <= x < width,
            0 <= u < width,
            x + y * width == u + v * width,
    ;
}

/// The cell that an offset below `width * height` belongs to.
pub proof fn lemma_offset_cell(width: int, height: int, i: int)
    requires
        0 < width,
        0 <= i < width * height,
    ensures
        0 <= i % width < width,
        0 <= i / width < height,
        offset(width, i % width, i / width) == i,
{
    vstd::arithmetic::div_mod::lemma_fundamental_div_mod(i, width);
    vstd::arithmetic::div_mod::lemma_mod_bound(i, width);
    let q = i / width;
    assert(width * q == q * width) by (nonlinear_arith);
    assert(q < height) by (nonlinear_arith)
        requires
            0 < width,
            i < width * height,
            q * width <= i,
    ;
    assert(0 <= q) by (nonlinear_arith)
        requires
            0 < width,
            0 <= i,
            i < q * width + width,
    ;
}

impl Image {
    /// Number of columns.
    pub closed spec fn spec_width(&self) -> int {
        self.header.width as int
    }

    /// Number of rows.
    pub closed spec fn spec_height(&self) -> int {
        self.header.height as int
    }

    /// The header that describes this raster.
    pub closed spec fn spec_header(&self) -> Header {
        self.header
    }

    /// The raster holds exactly one quad per cell, and its header is that of
    /// an uncompressed true-colour image of its extents.
    pub closed spec fn wf(&self) -> bool {
        &&& self.data@.len() == self.header.width as int * self.header.height as int
        &&& self.header == Header::describing(self.header.width, self.header.height)
    }

    /// Whether column `x`, row `y` is a cell of this raster.
    pub open spec fn contains(&self, x: int, y: int) -> bool {
        0 <= x < self.spec_width() && 0 <= y < self.spec_height()
    }

    /// The quad stored at column `x`, row `y`.
    pub open spec fn pixel(&self, x: int, y: int) -> Rgba {
        self@[offset(self.spec_width(), x, y)]
    }

    /// Whether `other` has the extents of this raster.
    pub open spec fn same_extents(&self, other: &Image) -> bool {
        self.spec_width() == other.spec_width() && self.spec_height() == other.spec_height()
    }

    /// A well-formed raster has one quad per cell and the header of its
    /// extents.
    pub proof fn lemma_wf(&self)
        requires
            self.wf(),
        ensures
            self@.len() == self.spec_width() * self.spec_height(),
            self.spec_header() == Header::describing(
                self.spec_width() as u16,
                self.spec_height() as u16,
            ),
            0 <= self.spec_width() <= u16::MAX,
            0 <= self.spec_height() <= u16::MAX,
    {
    }

    /// In a raster that holds `fill` at every offset, every cell holds `fill`.
    pub proof fn lemma_fresh(&self, fill: Rgba)
        requires
            self.wf(),
            self@ == Seq::new((self.spec_width() * self.spec_height()) as nat, |i: int| fill),
        ensures
            forall|x: int, y: int| self.contains(x, y) ==> #[trigger] self.pixel(x, y) == fill,
    {
        assert forall|x: int, y: int| self.contains(x, y) implies #[trigger] self.pixel(x, y)
            == fill by {
            lemma_offset_in_range(self.spec_width(), self.spec_height(), x, y);
        }
    }

    /// Two rasters of the same extents that hold the same quad in every cell
    /// hold the same pixel sequence.
    pub proof fn lemma_cells_determine(&self, other: &Image)
        requires
            self.wf(),
            other.wf(),
            self.same_extents(other),
            forall|x: int, y: int| self.contains(x, y) ==> self.pixel(x, y) == other.pixel(x, y),
        ensures
            self@ == other@,
    {
        let w = self.spec_width();
        let h = self.spec_height();
        assert forall|i: int| 0 <= i < self@.len() implies self@[i] == other@[i] by {
            assert(w > 0) by (nonlinear_arith)
                requires
                    0 <= i < w * h,
                    0 <= w,
            ;
            lemma_offset_cell(w, h, i);
            assert(self.contains(i % w, i / w));
            assert(self.pixel(i % w, i / w) == other.pixel(i % w, i / w));
        }
        assert(self@ =~= other@);
    }

    /// A raster of the given extents with every pixel fully transparent black.
    pub fn new(width: u16, height: u16) -> (img: Image)
        ensures
            img.wf(),
            img.spec_width() == width,
            img.spec_height() == height,
            img@ == Seq::new((width as int * height as int) as nat, |i: int| background()),
    {
        Image::with_background(width, height, Rgba::transparent_black())
    }

    /// A raster of the given extents with every pixel set to `fill`.
    pub fn with_background(width: u16, height: u16, fill: Rgba) -> (img: Image)
        ensures
            img.wf(),
            img.spec_width() == width,
            img.spec_height() == height,
            img@ == Seq::new((width as int * height as int) as nat, |i: int| fill),
    {
        assert(0 <= width as int * height as int <= 0xffff * 0xffff) by (nonlinear_arith)
            requires
                0 <= width as int <= 0xffff,
                0 <= height as int <= 0xffff,
        ;
        let count: usize = width as usize * height as usize;
        let data: Vec<Rgba> = vec![fill; count];
        let img = Image { header: Header::new(width, height), data };
        assert(img@ =~= Seq::new((width as int * height as int) as nat, |i: int| fill));
        img
    }

    /// Number of columns.
    pub fn width(&self) -> (w: u16)
        ensures
            w == self.spec_width(),
    {
        self.header.width
    }

    /// Number of rows.
    pub fn height(&self) -> (h: u16)
        ensures
            h == self.spec_height(),
    {
        self.header.height
    }

    /// The header that describes this raster.
    pub fn header(&self) -> (h: Header)
        ensures
            h == self.spec_header(),
    {
        self.header
    }

    /// The pixels in storage order, for reading.
    pub fn pixels(&self) -> (data: &Vec<Rgba>)
        ensures
            data@ == self@,
    {
        &self.data
    }

    /// The quad stored at column `x`, row `y`.
    pub fn get_pixel(&self, x: u16, y: u16) -> (c: Rgba)
        requires
            self.wf(),
            self.contains(x as int, y as int),
        ensures
            c == self.pixel(x as int, y as int),
    {
        proof {
            lemma_offset_in_range(self.spec_width(), self.spec_height(), x as int, y as int);
        }
        let w: usize = self.header.width as usize;
        assert(y as int * w as int <= 0xffff * 0xffff) by (nonlinear_arith)
            requires
                0 <= y as int <= 0xffff,
                0 <= w as int <= 0xffff,
        ;
        self.data[x as usize + y as usize * w]
    }

    /// Overwrites the quad at column `x`, row `y`; every other cell keeps its
    /// quad.
    pub fn set_pixel(&mut self, x: u16, y: u16, r: u8, g: u8, b: u8, a: u8)
        requires
            old(self).wf(),
            old(self).contains(x as int, y as int),
        ensures
            final(self).wf(),
            final(self).same_extents(old(self)),
            final(self)@ == old(self)@.update(
                offset(old(self).spec_width(), x as int, y as int),
                Rgba { r, g, b, a },
            ),
            forall|u: int, v: int|
                old(self).contains(u, v) ==> #[trigger] final(self).pixel(u, v) == (if u == x && v
                    == y {
                    Rgba { r, g, b, a }
                } else {
                    old(self).pixel(u, v)
                }),
    {
        proof {
            lemma_offset_in_range(self.spec_width(), self.spec_height(), x as int, y as int);
        }
        let w: usize = self.header.width as usize;
        assert(y as int * w as int <= 0xffff * 0xffff) by (nonlinear_arith)
            requires
                0 <= y as int <= 0xffff,
                0 <= w as int <= 0xffff,
        ;
        let at: usize = x as usize + y as usize * w;
        self.data.set(at, Rgba { r, g, b, a });
        proof {
            let width = old(self).spec_width();
            let height = old(self).spec_height();
            assert forall|u: int, v: int| old(self).contains(u, v) implies #[trigger] self.pixel(
                u,
                v,
            ) == (if u == x && v == y {
                Rgba { r, g, b, a }
            } else {
                old(self).pixel(u, v)
            }) by {
                lemma_offset_in_range(width, height, u, v);
                if offset(width, u, v) == offset(width, x as int, y as int) {
                    lemma_offset_injective(width, u, v, x as int, y as int);
                }
            }
        }
    }

    /// Replaces each colour channel of every pixel by its entry in `curve`;
    /// alpha is kept.
    pub fn apply_curve(&mut self, curve: &[u8; 256])
        requires
            old(self).wf(),
        ensures
            final(self).wf(),
            final(self).same_extents(old(self)),
            final(self)@ == old(self)@.map_values(|c: Rgba| c.toned(curve@)),
            forall|i: int| 0 <= i < old(self)@.len() ==> #[trigger] final(self)@[i].a == old(self)@[i].a,
            is_identity_curve(curve@) ==> final(self)@ == old(self)@,
    {
        broadcast use vstd::array::group_array_axioms;
        let n: usize = self.data.len();
        let mut i: usize = 0;
        while i < n
            invariant
                i <= n,
                n == self.data@.len(),
                self.header == old(self).header,
                self.data@.len() == old(self).data@.len(),
                forall|j: int| 0 <= j < i ==> self.data@[j] == old(self).data@[j].toned(curve@),
                forall|j: int| i <= j < n ==> self.data@[j] == old(self).data@[j],
            decreases n - i,
        {
            let c: Rgba = self.data[i];
            let t = Rgba {
                r: curve[c.r as usize],
                g: curve[c.g as usize],
                b: curve[c.b as usize],
                a: c.a,
            };
            self.data.set(i, t);
            i = i + 1;
        }
        assert(self@ =~= old(self)@.map_values(|c: Rgba| c.toned(curve@)));
        assert(is_identity_curve(curve@) ==> self@ =~= old(self)@);
    }
}

} // verus!
