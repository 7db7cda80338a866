//! The geometry of a line: which axis is stepped, in which direction, and
//! which cell each step lands on under either stepping rule.
use vstd::prelude::*;
use vstd::arithmetic::div_mod::{
    lemma_div_is_ordered,
    lemma_div_multiples_vanish,
    lemma_div_pos_is_pos,
    lemma_fundamental_div_mod_converse,
    lemma_hoist_over_denominator,
};

verus! {

/// Distance between two coordinates.
pub open spec fn distance(a: int, b: int) -> int {
    if a <= b {
        b - a
    } else {
        a - b
    }
}

/// A line brought into stepping form. The major axis is the one with the
/// larger extent; `start` and `end` are the major coordinates of the two
/// endpoints in increasing order, `minor_start` and `minor_end` the minor
/// coordinates that belong to them. `swapped` says that the major axis is the
/// vertical one.
#[derive(Clone, Copy, Debug, PartialEq, Eq, Structural)]
pub struct Span {
    pub swapped: bool,
    pub start: u16,
    pub end: u16,
    pub minor_start: u16,
    pub minor_end: u16,
}

/// The stepping form of the line from `(x0, y0)` to `(x1, y1)`: the axes
/// change roles where the vertical extent exceeds the horizontal one, and the
/// endpoints change places where the major coordinate would decrease.
pub open spec fn span_of(x0: u16, y0: u16, x1: u16, y1: u16) -> Span {
    let swapped = distance(y0 as int, y1 as int) > distance(x0 as int, x1 as int);
    let (a0, b0, a1, b1) = if swapped {
        (y0, x0, y1, x1)
    } else {
        (x0, y0, x1, y1)
    };
    if a0 > a1 {
        Span { swapped, start: a1, end: a0, minor_start: b1, minor_end: b0 }
    } else {
        Span { swapped, start: a0, end: a1, minor_start: b0, minor_end: b1 }
    }
}

impl Span {
    /// Extent along the major axis.
    pub open spec fn run(self) -> int {
        self.end - self.start
    }

    /// Extent along the minor axis.
    pub open spec fn rise(self) -> int {
        distance(self.minor_start as int, self.minor_end as int)
    }

    /// The major axis is stepped upwards and is the longer one.
    pub open spec fn valid(self) -> bool {
        self.start <= self.end && self.rise() <= self.run()
    }

    /// Number of cells drawn: one per major coordinate from `start` up to but
    /// not including `end`, and the single shared cell where the two
    /// endpoints coincide.
    pub open spec fn steps(self) -> int {
        if self.run() == 0 {
            1
        } else {
            self.run()
        }
    }

    /// Minor coordinate at step `k` under the error-accumulator rule: the
    /// minor coordinate has moved one cell towards `minor_end` for every full
    /// `run` contained in `k * rise`.
    pub open spec fn accumulator_minor(self, k: int) -> int {
        if self.run() == 0 {
            self.minor_start as int
        } else if self.minor_start <= self.minor_end {
            self.minor_start + (k * self.rise()) / self.run()
        } else {
            self.minor_start - (k * self.rise()) / self.run()
        }
    }

    /// Minor coordinate at step `k` under the slope rule: `minor_start` plus
    /// `k` times the slope `(minor_end - minor_start) / run`, cut off towards
    /// zero. The value cut off is never negative, so the cut is the floor.
    pub open spec fn slope_minor(self, k: int) -> int {
        if self.run() == 0 {
            self.minor_start as int
        } else {
            (self.minor_start * self.run() + k * (self.minor_end - self.minor_start))
                / self.run()
        }
    }

    /// Major coordinate of the cell `(x, y)`.
    pub open spec fn major_of(self, x: int, y: int) -> int {
        if self.swapped {
            y
        } else {
            x
        }
    }

    /// Minor coordinate of the cell `(x, y)`.
    pub open spec fn minor_of(self, x: int, y: int) -> int {
        if self.swapped {
            x
        } else {
            y
        }
    }

    /// Whether one of the first `n` steps of the error-accumulator rule lands
    /// on the cell `(x, y)`.
    pub open spec fn accumulator_reaches(self, n: int, x: int, y: int) -> bool {
        let k = self.major_of(x, y) - self.start;
        0 <= k < n && self.minor_of(x, y) == self.accumulator_minor(k)
    }

    /// Whether one of the first `n` steps of the slope rule lands on the cell
    /// `(x, y)`.
    pub open spec fn slope_reaches(self, n: int, x: int, y: int) -> bool {
        let k = self.major_of(x, y) - self.start;
        0 <= k < n && self.minor_of(x, y) == self.slope_minor(k)
    }

    /// Whether the error-accumulator rule draws the cell `(x, y)`.
    pub open spec fn accumulator_covers(self, x: int, y: int) -> bool {
        self.accumulator_reaches(self.steps(), x, y)
    }

    /// Whether the slope rule draws the cell `(x, y)`.
    pub open spec fn slope_covers(self, x: int, y: int) -> bool {
        self.slope_reaches(self.steps(), x, y)
    }

    /// Both rules move the minor coordinate the same way: the line does not
    /// descend along the minor axis, or it is an exact diagonal.
    pub open spec fn rules_agree(self) -> bool {
        self.minor_start <= self.minor_end || self.rise() == self.run()
    }

    /// Brings the line from `(x0, y0)` to `(x1, y1)` into stepping form.
    pub fn of(x0: u16, y0: u16, x1: u16, y1: u16) -> (s: Span)
        ensures
            s == span_of(x0, y0, x1, y1),
            s.valid(),
    {
        let dx: u16 = if x0 <= x1 {
            x1 - x0
        } else {
            x0 - x1
        };
        let dy: u16 = if y0 <= y1 {
            y1 - y0
        } else {
            y0 - y1
        };
        let swapped = dy > dx;
        let (a0, b0, a1, b1) = if swapped {
            (y0, x0, y1, x1)
        } else {
            (x0, y0, x1, y1)
        };
        if a0 > a1 {
            Span { swapped, start: a1, end: a0, minor_start: b1, minor_end: b0 }
        } else {
            Span { swapped, start: a0, end: a1, minor_start: b0, minor_end: b1 }
        }
    }

    /// At every step the error-accumulator rule stays between the two minor
    /// coordinates of the endpoints.
    pub proof fn lemma_accumulator_minor_bounds(self, k: int)
        requires
            self.valid(),
            0 <= k < self.steps(),
        ensures
            self.minor_start <= self.accumulator_minor(k) <= self.minor_end
                || self.minor_end <= self.accumulator_minor(k) <= self.minor_start,
    {
        if self.run() > 0 {
            lemma_scaled_quotient_bounds(k, self.rise(), self.run());
        }
    }

    /// At every step the slope rule stays between the two minor coordinates
    /// of the endpoints, and the value it cuts off is not negative.
    pub proof fn lemma_slope_minor_bounds(self, k: int)
        requires
            self.valid(),
            0 <= k < self.steps(),
        ensures
            0 <= self.minor_start * self.run() + k * (self.minor_end - self.minor_start),
            self.minor_start <= self.slope_minor(k) <= self.minor_end || self.minor_end
                <= self.slope_minor(k) <= self.minor_start,
    {
        let a = self.minor_start as int;
        let b = self.minor_end as int;
        let n = self.run();
        if n > 0 {
            let num = a * n + k * (b - a);
            assert(a * n == n * a && b * n == n * b) by (nonlinear_arith);
            lemma_div_multiples_vanish(a, n);
            lemma_div_multiples_vanish(b, n);
            if a <= b {
                assert(a * n <= num <= b * n) by (nonlinear_arith)
                    requires
                        num == a * n + k * (b - a),
                        0 <= k < n,
                        a <= b,
                ;
                lemma_div_is_ordered(a * n, num, n);
                lemma_div_is_ordered(num, b * n, n);
            } else {
                assert(b * n <= num <= a * n) by (nonlinear_arith)
                    requires
                        num == a * n + k * (b - a),
                        0 <= k < n,
                        b < a,
                ;
                lemma_div_is_ordered(b * n, num, n);
                lemma_div_is_ordered(num, a * n, n);
            }
            assert(0 <= a * n && 0 <= b * n) by (nonlinear_arith)
                requires
                    0 <= a,
                    0 <= b,
                    0 < n,
            ;
        }
    }

    /// Where the line does not descend along the minor axis, or is an exact
    /// diagonal, the two rules give the same minor coordinate at every step.
    pub proof fn lemma_minor_agrees(self, k: int)
        requires
            self.valid(),
            self.rules_agree(),
            0 <= k < self.steps(),
        ensures
            self.slope_minor(k) == self.accumulator_minor(k),
    {
        let a = self.minor_start as int;
        let b = self.minor_end as int;
        let n = self.run();
        if n > 0 {
            if a <= b {
                lemma_hoist_over_denominator(k * (b - a), a, n as nat);
                assert(k * (b - a) + a * n == a * n + k * (b - a));
            } else {
                assert(a - b == n);
                assert(a * n + k * (b - a) == n * (a - k)) by (nonlinear_arith)
                    requires
                        a - b == n,
                ;
                assert(k * (a - b) == n * k) by (nonlinear_arith)
                    requires
                        a - b == n,
                ;
                lemma_div_multiples_vanish(a - k, n);
                lemma_div_multiples_vanish(k, n);
            }
        }
    }
}

/// For `0 <= k < n` and `0 <= d <= n`, the quotient of `k * d` by `n` lies
/// between zero and `d`.
pub proof fn lemma_scaled_quotient_bounds(k: int, d: int, n: int)
    requires
        0 <= k < n,
        0 <= d <= n,
    ensures
        0 <= (k * d) / n <= d,
{
    assert(0 <= k * d <= n * d) by (nonlinear_arith)
        requires
            0 <= k < n,
            0 <= d,
    ;
    lemma_div_pos_is_pos(k * d, n);
    lemma_div_is_ordered(k * d, n * d, n);
    lemma_div_multiples_vanish(d, n);
}

/// A remainder in `[0, n)` fixes the quotient: where `k * d == q * n + e`
/// with `0 <= e < n`, `q` is the quotient of `k * d` by `n`.
pub proof fn lemma_accumulated_quotient(k: int, d: int, n: int, q: int, e: int)
    requires
        0 < n,
        0 <= e < n,
        k * d == q * n + e,
    ensures
        q == (k * d) / n,
{
    lemma_fundamental_div_mod_converse(k * d, n, q, e);
}

/// The two rasterisers draw the same cells for every line that does not
/// descend along its minor axis and for every exact diagonal.
pub proof fn lemma_rasterizers_agree(x0: u16, y0: u16, x1: u16, y1: u16, x: int, y: int)
    requires
        span_of(x0, y0, x1, y1).rules_agree(),
    ensures
        span_of(x0, y0, x1, y1).slope_covers(x, y) == span_of(x0, y0, x1, y1).accumulator_covers(
            x,
            y,
        ),
{
    let s = span_of(x0, y0, x1, y1);
    let k = s.major_of(x, y) - s.start;
    if 0 <= k < s.steps() {
        s.lemma_minor_agrees(k);
    }
}

/// The cell with the given major and minor coordinate, the exchange of axes
/// of `span` undone.
pub open spec fn cell_of(span: Span, major: int, minor: int) -> (int, int) {
    if span.swapped {
        (minor, major)
    } else {
        (major, minor)
    }
}

/// On a line that descends along its minor axis without being an exact
/// diagonal the two rasterisers part at the second step: the accumulator rule
/// is still level with the start, the slope rule has already moved one cell
/// towards the end. So the accumulator rule draws a cell that the slope rule
/// leaves alone.
pub proof fn lemma_rasterizers_part(x0: u16, y0: u16, x1: u16, y1: u16)
    requires
        !span_of(x0, y0, x1, y1).rules_agree(),
    ensures
        1 < span_of(x0, y0, x1, y1).steps(),
        span_of(x0, y0, x1, y1).accumulator_minor(1) == span_of(x0, y0, x1, y1).minor_start,
        span_of(x0, y0, x1, y1).slope_minor(1) == span_of(x0, y0, x1, y1).minor_start - 1,
        ({
            let s = span_of(x0, y0, x1, y1);
            let c = cell_of(s, s.start + 1, s.minor_start as int);
            s.accumulator_covers(c.0, c.1) && !s.slope_covers(c.0, c.1)
        }),
{
    let s = span_of(x0, y0, x1, y1);
    let a = s.minor_start as int;
    let b = s.minor_end as int;
    let n = s.run();
    let d = a - b;
    assert(0 < d < n);
    assert(1 * d == 0 * n + d) by (nonlinear_arith);
    lemma_fundamental_div_mod_converse(1 * d, n, 0, d);
    assert(a * n + 1 * (b - a) == (a - 1) * n + (n - d)) by (nonlinear_arith)
        requires
            d == a - b,
    ;
    lemma_fundamental_div_mod_converse(a * n + 1 * (b - a), n, a - 1, n - d);
}

/// Every cell that either rasteriser draws lies in the box spanned by the two
/// endpoints of the line.
pub proof fn lemma_covered_cells_between_endpoints(
    x0: u16,
    y0: u16,
    x1: u16,
    y1: u16,
    x: int,
    y: int,
)
    requires
        span_of(x0, y0, x1, y1).accumulator_covers(x, y) || span_of(x0, y0, x1, y1).slope_covers(
            x,
            y,
        ),
    ensures
        x0 <= x <= x1 || x1 <= x <= x0,
        y0 <= y <= y1 || y1 <= y <= y0,
{
    let s = span_of(x0, y0, x1, y1);
    let k = s.major_of(x, y) - s.start;
    s.lemma_accumulator_minor_bounds(k);
    s.lemma_slope_minor_bounds(k);
}

/// A line whose endpoints coincide covers that one cell and no other, under
/// both rules.
pub proof fn lemma_point_line(px: u16, py: u16, x: int, y: int)
    ensures
        span_of(px, py, px, py).accumulator_covers(x, y) == (x == px && y == py),
        span_of(px, py, px, py).slope_covers(x, y) == (x == px && y == py),
{
}

} // verus!
