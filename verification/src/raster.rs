//! The two line rasterisers. Both step the major axis of the line one cell at
//! a time and differ in how they find the minor coordinate of each step.
use vstd::prelude::*;
use crate::color::{foreground, Rgba};
use crate::image::{
    lemma_offset_cell,
    lemma_offset_in_range,
    lemma_offset_injective,
    offset,
    Image,
};
use crate::line::{
    distance,
    lemma_accumulated_quotient,
    lemma_point_line,
    lemma_rasterizers_agree,
    lemma_scaled_quotient_bounds,
    span_of,
    Span,
};

verus! {

impl Image {
    /// Whether both endpoints of a line are cells of this raster.
    pub open spec fn holds_line(&self, x0: u16, y0: u16, x1: u16, y1: u16) -> bool {
        self.contains(x0 as int, y0 as int) && self.contains(x1 as int, y1 as int)
    }

    /// Whether this raster is `before` with the line from `(x0, y0)` to
    /// `(x1, y1)` drawn on it by the error accumulator.
    pub open spec fn is_accumulator_line_on(
        &self,
        before: &Image,
        x0: u16,
        y0: u16,
        x1: u16,
        y1: u16,
    ) -> bool {
        &&& self.wf()
        &&& self.same_extents(before)
        &&& forall|x: int, y: int|
            before.contains(x, y) ==> #[trigger] self.pixel(x, y) == (if span_of(
                x0,
                y0,
                x1,
                y1,
            ).accumulator_covers(x, y) {
                foreground()
            } else {
                before.pixel(x, y)
            })
    }

    /// Whether this raster is `before` with the line from `(x0, y0)` to
    /// `(x1, y1)` drawn on it by slope.
    pub open spec fn is_slope_line_on(
        &self,
        before: &Image,
        x0: u16,
        y0: u16,
        x1: u16,
        y1: u16,
    ) -> bool {
        &&& self.wf()
        &&& self.same_extents(before)
        &&& forall|x: int, y: int|
            before.contains(x, y) ==> #[trigger] self.pixel(x, y) == (if span_of(
                x0,
                y0,
                x1,
                y1,
            ).slope_covers(x, y) {
                foreground()
            } else {
                before.pixel(x, y)
            })
    }

    /// Drawn on the same raster, the two rasterisers leave the same pixels
    /// for every line that does not descend along its minor axis and for
    /// every exact diagonal.
    pub proof fn lemma_same_picture(
        before: &Image,
        by_slope: &Image,
        by_accumulator: &Image,
        x0: u16,
        y0: u16,
        x1: u16,
        y1: u16,
    )
        requires
            before.wf(),
            span_of(x0, y0, x1, y1).rules_agree(),
            by_slope.is_slope_line_on(before, x0, y0, x1, y1),
            by_accumulator.is_accumulator_line_on(before, x0, y0, x1, y1),
        ensures
            by_slope@ == by_accumulator@,
    {
        assert forall|x: int, y: int| by_slope.contains(x, y) implies by_slope.pixel(x, y)
            == by_accumulator.pixel(x, y) by {
            lemma_rasterizers_agree(x0, y0, x1, y1, x, y);
            assert(before.contains(x, y));
        }
        by_slope.lemma_cells_determine(by_accumulator);
    }

    /// A line whose two endpoints are the cell `(px, py)` changes that cell
    /// to the foreground colour and no other, whichever rasteriser draws it.
    pub proof fn lemma_point_picture(before: &Image, after: &Image, px: u16, py: u16)
        requires
            before.wf(),
            before.contains(px as int, py as int),
            after.is_slope_line_on(before, px, py, px, py) || after.is_accumulator_line_on(
                before,
                px,
                py,
                px,
                py,
            ),
        ensures
            after@ == before@.update(
                offset(before.spec_width(), px as int, py as int),
                foreground(),
            ),
    {
        let w = before.spec_width();
        let h = before.spec_height();
        before.lemma_wf();
        after.lemma_wf();
        lemma_offset_in_range(w, h, px as int, py as int);
        assert(after@.len() == before@.len());
        let target = before@.update(offset(w, px as int, py as int), foreground());
        assert forall|i: int| 0 <= i < after@.len() implies after@[i] == target[i] by {
            assert(w > 0);
            lemma_offset_cell(w, h, i);
            let x = i % w;
            let y = i / w;
            assert(before.contains(x, y));
            lemma_point_line(px, py, x, y);
            assert(after.pixel(x, y) == after@[i]);
            if i == offset(w, px as int, py as int) {
                lemma_offset_injective(w, x, y, px as int, py as int);
            }
        }
        assert(after@ =~= target);
    }

    /// Draws the cell with the given major and minor coordinate in the
    /// foreground colour, undoing the exchange of axes of `span`.
    fn plot(&mut self, span: &Span, major: u16, minor: u16)
        requires
            old(self).wf(),
            span.swapped ==> old(self).contains(minor as int, major as int),
            !span.swapped ==> old(self).contains(major as int, minor as int),
        ensures
            final(self).wf(),
            final(self).same_extents(old(self)),
            forall|u: int, v: int|
                old(self).contains(u, v) ==> #[trigger] final(self).pixel(u, v) == (if span.major_of(
                    u,
                    v,
                ) == major && span.minor_of(u, v) == minor {
                    foreground()
                } else {
                    old(self).pixel(u, v)
                }),
    {
        let white = Rgba::white();
        if span.swapped {
            self.set_pixel(minor, major, white.r, white.g, white.b, white.a);
        } else {
            self.set_pixel(major, minor, white.r, white.g, white.b, white.a);
        }
    }

    /// Draws the line from `(x0, y0)` to `(x1, y1)` in opaque white with the
    /// integer error accumulator: the error grows by the minor extent at each
    /// step, and whenever it has reached the major extent it is reduced by it
    /// and the minor coordinate moves one cell towards the end. The endpoint
    /// with the larger major coordinate is not drawn, unless the two
    /// endpoints coincide.
    pub fn draw_line_bresenham_with_uint(&mut self, x0: u16, y0: u16, x1: u16, y1: u16)
        requires
            old(self).wf(),
            old(self).holds_line(x0, y0, x1, y1),
        ensures
            final(self).is_accumulator_line_on(old(self), x0, y0, x1, y1),
    {
        let span = Span::of(x0, y0, x1, y1);
        if span.start == span.end {
            self.plot(&span, span.start, span.minor_start);
            return ;
        }
        let run: u32 = (span.end - span.start) as u32;
        let descending: bool = span.minor_start > span.minor_end;
        let rise: u32 = if descending {
            (span.minor_start - span.minor_end) as u32
        } else {
            (span.minor_end - span.minor_start) as u32
        };
        let mut error: u32 = 0;
        let mut minor: u16 = span.minor_start;
        let mut major: u16 = span.start;
        let ghost mut moved: int = 0;
        assert(0 * rise as int == 0 * run as int + 0) by (nonlinear_arith);
        while major < span.end
            invariant
                span == span_of(x0, y0, x1, y1),
                span.valid(),
                run == span.run(),
                rise == span.rise(),
                0 < run,
                descending == (span.minor_start > span.minor_end),
                span.start <= major <= span.end,
                0 <= moved <= rise,
                descending ==> minor == span.minor_start - moved,
                !descending ==> minor == span.minor_start + moved,
                (major - span.start) * rise == moved * run + error,
                error < run + rise,
                self.wf(),
                self.same_extents(old(self)),
                old(self).holds_line(x0, y0, x1, y1),
                forall|x: int, y: int|
                    old(self).contains(x, y) ==> #[trigger] self.pixel(x, y) == (
                    if span.accumulator_reaches(major - span.start, x, y) {
                        foreground()
                    } else {
                        old(self).pixel(x, y)
                    }),
            decreases span.end - major,
        {
            let ghost k: int = major - span.start;
            if error >= run {
                proof {
                    assert(k * rise == (moved + 1) * run + (error - run)) by (nonlinear_arith)
                        requires
                            k * rise == moved * run + error,
                    ;
                    lemma_accumulated_quotient(k, rise as int, run as int, moved + 1, error - run);
                    lemma_scaled_quotient_bounds(k, rise as int, run as int);
                    moved = moved + 1;
                }
                error = error - run;
                minor = if descending {
                    minor - 1
                } else {
                    minor + 1
                };
            }
            proof {
                lemma_accumulated_quotient(k, rise as int, run as int, moved, error as int);
            }
            self.plot(&span, major, minor);
            error = error + rise;
            major = major + 1;
            proof {
                assert((k + 1) * rise == moved * run + error) by (nonlinear_arith)
                    requires
                        k * rise == moved * run + (error - rise),
                ;
            }
        }
    }

    /// Draws the line from `(x0, y0)` to `(x1, y1)` in opaque white by its
    /// slope: the minor coordinate of a step is the starting one plus the
    /// step count times the slope, cut off towards zero. The slope is kept as
    /// the exact ratio of the two extents, so nothing is rounded before the
    /// cut. The endpoint with the larger major coordinate is not drawn,
    /// unless the two endpoints coincide.
    pub fn draw_line_bresenham_with_float(&mut self, x0: u16, y0: u16, x1: u16, y1: u16)
        requires
            old(self).wf(),
            old(self).holds_line(x0, y0, x1, y1),
        ensures
            final(self).is_slope_line_on(old(self), x0, y0, x1, y1),
    {
        let span = Span::of(x0, y0, x1, y1);
        if span.start == span.end {
            self.plot(&span, span.start, span.minor_start);
            return ;
        }
        let run: u64 = (span.end - span.start) as u64;
        let from: u64 = span.minor_start as u64;
        let to: u64 = span.minor_end as u64;
        let mut major: u16 = span.start;
        while major < span.end
            invariant
                span == span_of(x0, y0, x1, y1),
                span.valid(),
                run == span.run(),
                from == span.minor_start,
                to == span.minor_end,
                0 < run,
                span.start <= major <= span.end,
                self.wf(),
                self.same_extents(old(self)),
                old(self).holds_line(x0, y0, x1, y1),
                forall|x: int, y: int|
                    old(self).contains(x, y) ==> #[trigger] self.pixel(x, y) == (
                    if span.slope_reaches(major - span.start, x, y) {
                        foreground()
                    } else {
                        old(self).pixel(x, y)
                    }),
            decreases span.end - major,
        {
            let k: u64 = (major - span.start) as u64;
            proof {
                span.lemma_slope_minor_bounds(k as int);
                assert(from * run <= 0xffff * 0xffff) by (nonlinear_arith)
                    requires
                        from <= 0xffff,
                        run <= 0xffff,
                ;
                assert(k * distance(from as int, to as int) <= 0xffff * 0xffff) by (nonlinear_arith)
                    requires
                        k <= 0xffff,
                        distance(from as int, to as int) <= 0xffff,
                ;
                assert(k * (to as int - from as int) == if from <= to {
                    k * (to - from)
                } else {
                    -(k * (from - to))
                }) by (nonlinear_arith);
            }
            let scaled: u64 = if from <= to {
                from * run + k * (to - from)
            } else {
                from * run - k * (from - to)
            };
            let minor: u16 = (scaled / run) as u16;
            self.plot(&span, major, minor);
            major = major + 1;
        }
    }
}

} // verus!
