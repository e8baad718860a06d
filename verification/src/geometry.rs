//! Points, half-open rectangles and floor division on world coordinates.

use vstd::prelude::*;

verus! {

/// A point or displacement in whole world units.
#[derive(Clone, Copy, Debug, PartialEq, Eq, Structural)]
pub struct Point {
    pub x: i32,
    pub y: i32,
}

/// A half-open rectangle of the plane: it holds the points `(x, y)` with
/// `left <= x < right` and `top <= y < bottom`. An edge that lies exactly on
/// a tile boundary therefore does not reach into the tile beyond it.
pub struct Area {
    pub left: int,
    pub top: int,
    pub right: int,
    pub bottom: int,
}

impl Area {
    /// No point lies in the rectangle.
    pub open spec fn is_empty(self) -> bool {
        self.right <= self.left || self.bottom <= self.top
    }

    /// The rectangle shares a point with the cell `(cx, cy)` of a grid whose
    /// tiles are `tw` wide and `th` high.
    pub open spec fn meets_cell(self, cx: int, cy: int, tw: int, th: int) -> bool {
        &&& !self.is_empty()
        &&& span_meets(self.left, self.right, cx, tw)
        &&& span_meets(self.top, self.bottom, cy, th)
    }
}

/// A half-open rectangle in machine integers; its view is the [`Area`] with
/// the same edges.
#[derive(Clone, Copy, Debug, PartialEq, Eq, Structural)]
pub struct Rect {
    pub left: i64,
    pub top: i64,
    pub right: i64,
    pub bottom: i64,
}

impl View for Rect {
    type V = Area;

    open spec fn view(&self) -> Area {
        Area {
            left: self.left as int,
            top: self.top as int,
            right: self.right as int,
            bottom: self.bottom as int,
        }
    }
}

/// The interval `[lo, hi)` shares a point with `[c * size, (c + 1) * size)`.
pub open spec fn span_meets(lo: int, hi: int, c: int, size: int) -> bool {
    lo < (c + 1) * size && c * size < hi
}

/// `a / d` rounded towards negative infinity, for a positive divisor.
pub open spec fn floor_div(a: int, d: int) -> int {
    a / d
}

/// The quotient `q` of `floor_div(a, d)` is the one integer with
/// `q * d <= a < (q + 1) * d`.
pub proof fn lemma_floor_div_bounds(a: int, d: int)
    requires
        d > 0,
    ensures
        floor_div(a, d) * d <= a < (floor_div(a, d) + 1) * d,
{
    assert(a == (a / d) * d + a % d && 0 <= a % d < d) by (nonlinear_arith)
        requires d > 0;
    assert((a / d + 1) * d == (a / d) * d + d) by (nonlinear_arith);
}

pub fn floor_div_exec(a: i64, d: i32) -> (q: i64)
    requires
        d > 0,
    ensures
        q == floor_div(a as int, d as int),
{
    let dd: i64 = d as i64;
    if a >= 0 {
        a / dd
    } else {
        let m: i64 = -(a + 1);
        let t: i64 = m / dd;
        proof {
            lemma_floor_div_bounds(a as int, d as int);
            lemma_floor_div_bounds(m as int, d as int);
            assert((-(t as int) - 1 + 1) * d == -(t * d)) by (nonlinear_arith);
            assert((-(t as int) - 1) * d == -((t + 1) * d)) by (nonlinear_arith);
            lemma_floor_div_unique(a as int, d as int, -(t as int) - 1);
        }
        -t - 1
    }
}

/// Any integer `q` with `q * d <= a < (q + 1) * d` is `floor_div(a, d)`.
pub proof fn lemma_floor_div_unique(a: int, d: int, q: int)
    requires
        d > 0,
        q * d <= a < (q + 1) * d,
    ensures
        q == floor_div(a, d),
{
    lemma_floor_div_bounds(a, d);
    let p = floor_div(a, d);
    assert(p == q) by (nonlinear_arith)
        requires d > 0, q * d <= a < (q + 1) * d, p * d <= a < (p + 1) * d;
}

/// A non-empty interval `[lo, hi)` meets exactly the cells from the one that
/// holds `lo` to the one that holds `hi - 1`.
pub proof fn lemma_span_cells(lo: int, hi: int, c: int, size: int)
    requires
        size > 0,
        lo < hi,
    ensures
        span_meets(lo, hi, c, size) <==> floor_div(lo, size) <= c <= floor_div(hi - 1, size),
{
    lemma_floor_div_bounds(lo, size);
    lemma_floor_div_bounds(hi - 1, size);
    let first = floor_div(lo, size);
    let last = floor_div(hi - 1, size);
    assert(lo < (c + 1) * size <==> first <= c) by (nonlinear_arith)
        requires
            size > 0,
            first * size <= lo < (first + 1) * size,
    ;
    assert(c * size < hi <==> c <= last) by (nonlinear_arith)
        requires
            size > 0,
            last * size <= hi - 1 < (last + 1) * size,
    ;
}

} // verus!
