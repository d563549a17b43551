//! Cellular (nearest-feature-point) noise over a seeded point grid
//! with a one-cell border for neighbour search.

use vstd::prelude::*;
use crate::fixed::{UNIT, UNIT_SQ, lemma_mul_abs_bound};
use crate::noise::Noise;
use crate::seeded::{grid_of, feature_grid, seed_or_default};

verus! {

/// Largest accepted grid width or height.
pub const GRID_MAX: u64 = 4096;

/// Offset added to a coordinate before splitting it into a cell and a
/// fractional part; a multiple of `UNIT` that makes the dividend
/// nonnegative for every representable coordinate: 2^63.
pub const CELL_OFFSET: i128 = 0x8000_0000_0000_0000;

/// Half of the cell range covered by the offset above: 2^47 cells.
pub const HALF_CELLS: i128 = 0x8000_0000_0000;

/// The grid cell a coordinate falls in, wrapped into `[0, size)`:
/// `floor(x / UNIT) mod size`, written over the shifted nonnegative
/// coordinate (the added `(size - 1) * HALF_CELLS` is a multiple of
/// `size` away from the plain `- HALF_CELLS` shift, so the wrapped
/// cell is unchanged).
pub open spec fn wrapped_cell(x: int, size: int) -> int {
    ((x + CELL_OFFSET as int) / (UNIT as int) + (size - 1) * (HALF_CELLS as int)) % size
}

/// The fractional position of a coordinate within its cell, in
/// `[0, UNIT)`.
pub open spec fn cell_frac(x: int) -> int {
    (x + CELL_OFFSET as int) % (UNIT as int)
}

/// The integer square root: the unique nonnegative `r` with
/// `r^2 <= n < (r + 1)^2`.
pub open spec fn spec_isqrt(n: int) -> int {
    choose|r: int| 0 <= r && #[trigger] (r * r) <= n && n < (r + 1) * (r + 1)
}

/// Two integer square roots of the same number agree.
proof fn lemma_isqrt_unique(a: int, b: int, n: int)
    by (nonlinear_arith)
    requires
        0 <= a && a * a <= n && n < (a + 1) * (a + 1),
        0 <= b && b * b <= n && n < (b + 1) * (b + 1),
    ensures
        a == b,
{
}

/// Computes the integer square root by binary search.
pub fn isqrt(n: u64) -> (r: u64)
    ensures
        r == spec_isqrt(n as int),
        (r as int) * (r as int) <= n as int,
        (n as int) < ((r as int) + 1) * ((r as int) + 1),
{
    let mut lo: u64 = 0;
    let mut hi: u64 = 0x1_0000_0000;
    proof {
        assert((0x1_0000_0000 as int) * 0x1_0000_0000 > u64::MAX as int) by (nonlinear_arith);
    }
    while lo + 1 < hi
        invariant
            lo < hi <= 0x1_0000_0000,
            (lo as int) * (lo as int) <= n as int,
            (n as int) < (hi as int) * (hi as int),
        decreases hi - lo,
    {
        let mid = lo + (hi - lo) / 2;
        proof {
            assert((mid as int) * (mid as int) <= 0xFFFF_FFFF * 0xFFFF_FFFF)
                by (nonlinear_arith)
                requires 0 <= mid <= 0xFFFF_FFFF;
        }
        if mid * mid <= n {
            lo = mid;
        } else {
            hi = mid;
        }
    }
    proof {
        let w = lo as int;
        assert(0 <= w && w * w <= n as int && (n as int) < (w + 1) * (w + 1));
        assert(spec_isqrt(n as int) == w) by {
            assert(exists|r: int| 0 <= r && #[trigger] (r * r) <= n as int && (n as int) < (r + 1) * (r + 1))
                by {
                assert(0 <= w && w * w <= n as int && (n as int) < (w + 1) * (w + 1));
            }
            lemma_isqrt_unique(spec_isqrt(n as int), w, n as int);
        }
    }
    lo
}

/// The squared fixed-point distance from the sample position to the
/// feature point of the neighbour cell with offsets
/// `(j / 3, j mod 3)` in the 3 x 3 search window.
pub open spec fn spec_cand(
    points: Seq<(i64, i64)>, width: int, in_x: int, in_y: int, cx: int, cy: int, j: int,
) -> int {
    let xo = j / 3;
    let yo = j % 3;
    let p = points[(in_y + yo) * (width + 2) + in_x + xo];
    let dx = xo * (UNIT as int) + p.0 - cx - UNIT;
    let dy = yo * (UNIT as int) + p.1 - cy - UNIT;
    dx * dx + dy * dy
}

/// The least squared distance among the first `k` of the nine
/// neighbour candidates (ties keep the earlier candidate), starting
/// from the out-of-range sentinel `4 UNIT^2`.
pub open spec fn spec_min_sq(
    points: Seq<(i64, i64)>, width: int, in_x: int, in_y: int, cx: int, cy: int, k: int,
) -> int
    decreases k,
{
    if k <= 0 {
        4 * (UNIT_SQ as int)
    } else {
        let m = spec_min_sq(points, width, in_x, in_y, cx, cy, k - 1);
        let c = spec_cand(points, width, in_x, in_y, cx, cy, k - 1);
        if c < m {
            c
        } else {
            m
        }
    }
}

/// The running minimum never exceeds any candidate already seen.
proof fn lemma_min_sq_le_cand(
    points: Seq<(i64, i64)>, width: int, in_x: int, in_y: int, cx: int, cy: int, k: int, j: int,
)
    requires
        0 <= j < k,
    ensures
        spec_min_sq(points, width, in_x, in_y, cx, cy, k)
            <= spec_cand(points, width, in_x, in_y, cx, cy, j),
    decreases k,
{
    if j < k - 1 {
        lemma_min_sq_le_cand(points, width, in_x, in_y, cx, cy, k - 1, j);
    }
}

/// Seeded cellular noise: one feature point per cell of a
/// `(width + 2) x (height + 2)` grid (a one-cell border on each side),
/// each point an offset within its own cell.
pub struct Cellular {
    pub width: u64,
    pub height: u64,
    pub points: Vec<(i64, i64)>,
}

/// The grid sizes are in range, the point list covers the bordered
/// grid, and every stored offset lies within a unit cell.
pub open spec fn cellular_wf(width: u64, height: u64, points: Seq<(i64, i64)>) -> bool {
    &&& 1 <= width <= GRID_MAX
    &&& 1 <= height <= GRID_MAX
    &&& points.len() == (width + 2) * (height + 2)
    &&& forall|i: int| 0 <= i < points.len() ==> (0 <= (#[trigger] points[i]).0 < UNIT && 0
        <= points[i].1 < UNIT)
}

/// The value cellular noise assigns to a coordinate pair: the distance
/// to the nearest feature point of the 3 x 3 neighbourhood around the
/// sample's wrapped cell, normalized by the largest possible
/// nearest-neighbour distance `sqrt(2)`.
pub open spec fn spec_cellular(
    points: Seq<(i64, i64)>, width: u64, height: u64, x: int, y: int,
) -> int {
    let in_x = wrapped_cell(x, width as int);
    let in_y = wrapped_cell(y, height as int);
    let cx = cell_frac(x);
    let cy = cell_frac(y);
    spec_isqrt(spec_min_sq(points, width as int, in_x, in_y, cx, cy, 9) / 2)
}

/// Splits a coordinate into its wrapped grid cell and its fractional
/// position within the cell.
fn cell_coords(v: i64, size: u64) -> (r: (u64, i64))
    requires
        1 <= size <= GRID_MAX,
    ensures
        r.0 == wrapped_cell(v as int, size as int),
        r.0 < size,
        r.1 == cell_frac(v as int),
        0 <= r.1 < UNIT,
{
    let p: i128 = v as i128 + CELL_OFFSET;
    let q: i128 = p / (UNIT as i128);
    proof {
        vstd::arithmetic::div_mod::lemma_div_pos_is_pos(p as int, UNIT as int);
        vstd::arithmetic::div_mod::lemma_div_is_ordered(p as int, 0x1_0000_0000_0000_0000,
            UNIT as int);
        assert(0x1_0000_0000_0000_0000int / (UNIT as int) == 0x1_0000_0000_0000);
        lemma_mul_abs_bound(size as int - 1, GRID_MAX as int, HALF_CELLS as int,
            HALF_CELLS as int);
        vstd::arithmetic::div_mod::lemma_mod_bound(
            q as int + (size as int - 1) * (HALF_CELLS as int), size as int);
        vstd::arithmetic::div_mod::lemma_mod_bound(p as int, UNIT as int);
    }
    let cell: i128 = (q + (size as i128 - 1) * HALF_CELLS) % (size as i128);
    let frac: i128 = p % (UNIT as i128);
    (cell as u64, frac as i64)
}

impl Cellular {
    /// The state `new` leaves behind for given arguments: the point
    /// grid is a fixed function of the sizes and the seed.
    pub open spec fn constructed_from(self, width: u64, height: u64, seed: u64) -> bool {
        &&& self.width == width
        &&& self.height == height
        &&& self.points@ == grid_of(width, height, seed)
    }

    /// Builds cellular noise: a seeded generator (default seed 0)
    /// draws one feature point per cell of the bordered grid, row by
    /// row. The grid depends on the sizes and the seed alone, and
    /// every offset lies in a unit cell.
    pub fn new(width: u64, height: u64, seed: Option<u64>) -> (r: Cellular)
        requires
            1 <= width <= GRID_MAX,
            1 <= height <= GRID_MAX,
        ensures
            r.constructed_from(width, height, seed_or_default(seed)),
            cellular_wf(width, height, r.points@),
    {
        let seed = match seed {
            Some(s) => s,
            None => 0,
        };
        let points = feature_grid(width, height, seed);
        Cellular { width, height, points }
    }
}

/// Determinism of construction: two cellular-noise sources built from
/// the same width, height and seed hold the same point grid and
/// assign the same value to every input.
pub proof fn lemma_cellular_deterministic(
    a: Cellular, b: Cellular, width: u64, height: u64, seed: u64, input: (i64, i64),
)
    requires
        a.constructed_from(width, height, seed),
        b.constructed_from(width, height, seed),
    ensures
        a.points@ == b.points@,
        a.spec_get(input) == b.spec_get(input),
{
}

impl Noise for Cellular {
    type Input = (i64, i64);

    type Output = i64;

    open spec fn wf(&self) -> bool {
        cellular_wf(self.width, self.height, self.points@)
    }

    open spec fn spec_get(&self, input: (i64, i64)) -> i64 {
        spec_cellular(self.points@, self.width, self.height, input.0 as int, input.1 as int) as i64
    }

    /// Samples the noise: finds the wrapped cell of the input, scans
    /// the 3 x 3 neighbourhood for the nearest feature point, and
    /// returns the distance scaled by `1 / sqrt(2)`. The result lies
    /// in `[0, UNIT)`, since the centre cell always offers a point
    /// less than one cell diagonal away.
    fn get(&self, input: (i64, i64)) -> (r: i64) {
        let (in_x, cx) = cell_coords(input.0, self.width);
        let (in_y, cy) = cell_coords(input.1, self.height);
        let ghost gp = self.points@;
        let ghost w = self.width as int;
        let mut min_sq: i64 = 4 * UNIT_SQ;
        let mut j: usize = 0;
        while j < 9
            invariant
                self.wf(),
                gp == self.points@,
                w == self.width as int,
                in_x as int == wrapped_cell(input.0 as int, self.width as int),
                in_y as int == wrapped_cell(input.1 as int, self.height as int),
                in_x < self.width,
                in_y < self.height,
                cx == cell_frac(input.0 as int),
                cy == cell_frac(input.1 as int),
                0 <= cx < UNIT,
                0 <= cy < UNIT,
                0 <= j <= 9,
                min_sq == spec_min_sq(gp, w, in_x as int, in_y as int, cx as int, cy as int,
                    j as int),
                0 <= min_sq <= 4 * UNIT_SQ,
            decreases 9 - j,
        {
            let xo = (j / 3) as u64;
            let yo = (j % 3) as u64;
            proof {
                lemma_neighbour_index_bound(self.width as int, self.height as int, in_x as int,
                    in_y as int, xo as int, yo as int);
            }
            let idx: usize = ((in_y + yo) * (self.width + 2) + in_x + xo) as usize;
            let (ox, oy) = self.points[idx];
            let dx = (xo as i64) * UNIT + ox - cx - UNIT;
            let dy = (yo as i64) * UNIT + oy - cy - UNIT;
            proof {
                lemma_mul_abs_bound(2 * UNIT as int, 2 * UNIT as int, dx as int, 2 * UNIT as int);
                assert(0 <= (dx as int) * (dx as int) <= (2 * UNIT as int) * (2 * UNIT as int)
                    && 0 <= (dy as int) * (dy as int) <= (2 * UNIT as int) * (2 * UNIT as int))
                    by (nonlinear_arith)
                    requires
                        -2 * (UNIT as int) <= dx as int <= 2 * (UNIT as int)
                            && -2 * (UNIT as int) <= dy as int <= 2 * (UNIT as int);
            }
            let cand = dx * dx + dy * dy;
            if cand < min_sq {
                min_sq = cand;
            }
            j = j + 1;
        }
        proof {
            lemma_min_sq_le_cand(gp, w, in_x as int, in_y as int, cx as int, cy as int, 9, 4);
            lemma_centre_candidate_bound(gp, self.width as int, self.height as int, in_x as int,
                in_y as int, cx as int, cy as int);
            vstd::arithmetic::div_mod::lemma_div_pos_is_pos(min_sq as int, 2);
            vstd::arithmetic::div_mod::lemma_div_is_ordered(min_sq as int,
                2 * ((UNIT as int - 1) * (UNIT as int - 1)), 2);
            vstd::arithmetic::div_mod::lemma_div_by_multiple(
                (UNIT as int - 1) * (UNIT as int - 1), 2);
            assert(2 * ((UNIT as int - 1) * (UNIT as int - 1))
                == ((UNIT as int - 1) * (UNIT as int - 1)) * 2) by (nonlinear_arith);
        }
        let rq = isqrt((min_sq / 2) as u64);
        proof {
            assert(rq < UNIT) by (nonlinear_arith)
                requires
                    (rq as int) * (rq as int) <= (UNIT as int - 1) * (UNIT as int - 1)
                        && rq as int >= 0;
        }
        rq as i64
    }
}

/// The flat index of any cell in the 3 x 3 neighbourhood stays inside
/// the bordered grid.
proof fn lemma_neighbour_index_bound(
    width: int, height: int, in_x: int, in_y: int, xo: int, yo: int,
)
    requires
        1 <= width <= GRID_MAX as int,
        1 <= height <= GRID_MAX as int,
        0 <= in_x < width,
        0 <= in_y < height,
        0 <= xo <= 2,
        0 <= yo <= 2,
    ensures
        0 <= (in_y + yo) * (width + 2) + in_x + xo,
        (in_y + yo) * (width + 2) + in_x + xo < (width + 2) * (height + 2),
        (width + 2) * (height + 2) <= 16793604,
{
    lemma_mul_abs_bound(width + 2, 4098, height + 2, 4098);
    assert((in_y + yo) * (width + 2) >= 0 && (in_y + yo) * (width + 2)
        <= (height + 1) * (width + 2)) by (nonlinear_arith)
        requires 0 <= in_y + yo <= height + 1 && width + 2 > 0;
    assert((height + 2) * (width + 2) == (height + 1) * (width + 2) + (width + 2))
        by (nonlinear_arith);
    assert((width + 2) * (height + 2) == (height + 2) * (width + 2)) by (nonlinear_arith);
}

/// The centre cell of the search window always offers a candidate
/// closer than one cell diagonal, so the minimum stays below
/// `2 (UNIT - 1)^2`.
proof fn lemma_centre_candidate_bound(
    points: Seq<(i64, i64)>, width: int, height: int, in_x: int, in_y: int, cx: int, cy: int,
)
    requires
        cellular_wf(width as u64, height as u64, points),
        1 <= width <= GRID_MAX as int,
        1 <= height <= GRID_MAX as int,
        0 <= in_x < width,
        0 <= in_y < height,
        0 <= cx < UNIT,
        0 <= cy < UNIT,
    ensures
        spec_cand(points, width, in_x, in_y, cx, cy, 4)
            <= 2 * ((UNIT as int - 1) * (UNIT as int - 1)),
{
    lemma_neighbour_index_bound(width, height, in_x, in_y, 1, 1);
    let p = points[(in_y + 1) * (width + 2) + in_x + 1];
    let dx = (UNIT as int) + p.0 - cx - UNIT;
    let dy = (UNIT as int) + p.1 - cy - UNIT;
    assert(dx * dx <= (UNIT as int - 1) * (UNIT as int - 1)
        && dy * dy <= (UNIT as int - 1) * (UNIT as int - 1)) by (nonlinear_arith)
        requires
            -(UNIT as int - 1) <= dx <= UNIT as int - 1 && -(UNIT as int - 1) <= dy
                <= UNIT as int - 1;
}

/// For every well-formed cellular-noise source and every input, the
/// sampled value lies in `[0, 1)` (scaled by `UNIT`).
pub proof fn lemma_cellular_output_range(n: Cellular, input: (i64, i64))
    requires
        n.wf(),
    ensures
        0 <= n.spec_get(input) < UNIT,
{
    let x = input.0 as int;
    let y = input.1 as int;
    let in_x = wrapped_cell(x, n.width as int);
    let in_y = wrapped_cell(y, n.height as int);
    let cx = cell_frac(x);
    let cy = cell_frac(y);
    vstd::arithmetic::div_mod::lemma_mod_bound(
        (x + CELL_OFFSET as int) / (UNIT as int) + (n.width as int - 1) * (HALF_CELLS as int),
        n.width as int);
    vstd::arithmetic::div_mod::lemma_mod_bound(
        (y + CELL_OFFSET as int) / (UNIT as int) + (n.height as int - 1) * (HALF_CELLS as int),
        n.height as int);
    vstd::arithmetic::div_mod::lemma_mod_bound(x + CELL_OFFSET as int, UNIT as int);
    vstd::arithmetic::div_mod::lemma_mod_bound(y + CELL_OFFSET as int, UNIT as int);
    lemma_min_sq_le_cand(n.points@, n.width as int, in_x, in_y, cx, cy, 9, 4);
    lemma_centre_candidate_bound(n.points@, n.width as int, n.height as int, in_x, in_y, cx, cy);
    lemma_min_sq_nonneg(n.points@, n.width as int, in_x, in_y, cx, cy, 9);
    let m = spec_min_sq(n.points@, n.width as int, in_x, in_y, cx, cy, 9);
    vstd::arithmetic::div_mod::lemma_div_pos_is_pos(m, 2);
    vstd::arithmetic::div_mod::lemma_div_is_ordered(m, 2 * ((UNIT as int - 1) * (UNIT as int - 1)),
        2);
    vstd::arithmetic::div_mod::lemma_div_by_multiple((UNIT as int - 1) * (UNIT as int - 1), 2);
    assert(2 * ((UNIT as int - 1) * (UNIT as int - 1))
        == ((UNIT as int - 1) * (UNIT as int - 1)) * 2) by (nonlinear_arith);
    let r = spec_isqrt(m / 2);
    lemma_isqrt_exists(m / 2);
    assert(r < UNIT as int) by (nonlinear_arith)
        requires
            0 <= r && r * r <= (UNIT as int - 1) * (UNIT as int - 1);
}

/// Squared distances are nonnegative, so the running minimum is too.
proof fn lemma_min_sq_nonneg(
    points: Seq<(i64, i64)>, width: int, in_x: int, in_y: int, cx: int, cy: int, k: int,
)
    ensures
        0 <= spec_min_sq(points, width, in_x, in_y, cx, cy, k),
    decreases k,
{
    if k > 0 {
        lemma_min_sq_nonneg(points, width, in_x, in_y, cx, cy, k - 1);
        let c = spec_cand(points, width, in_x, in_y, cx, cy, k - 1);
        let xo = (k - 1) / 3;
        let yo = (k - 1) % 3;
        let p = points[(in_y + yo) * (width + 2) + in_x + xo];
        let dx = xo * (UNIT as int) + p.0 - cx - UNIT;
        let dy = yo * (UNIT as int) + p.1 - cy - UNIT;
        assert(dx * dx >= 0 && dy * dy >= 0) by (nonlinear_arith);
    }
}

/// The chosen integer square root satisfies its defining property.
proof fn lemma_isqrt_exists(n: int)
    requires
        0 <= n,
        n <= (UNIT as int - 1) * (UNIT as int - 1),
    ensures
        0 <= spec_isqrt(n),
        spec_isqrt(n) * spec_isqrt(n) <= n,
        n < (spec_isqrt(n) + 1) * (spec_isqrt(n) + 1),
{
    lemma_isqrt_witness(n, 0);
}

/// Every bounded nonnegative number has an integer square root: walk
/// candidates upward from a root whose square is not too large.
proof fn lemma_isqrt_witness(n: int, c: int)
    requires
        0 <= c,
        c * c <= n,
        n <= (UNIT as int - 1) * (UNIT as int - 1),
    ensures
        0 <= spec_isqrt(n),
        spec_isqrt(n) * spec_isqrt(n) <= n,
        n < (spec_isqrt(n) + 1) * (spec_isqrt(n) + 1),
    decreases (UNIT as int) - c,
{
    assert(c <= UNIT as int - 1) by (nonlinear_arith)
        requires 0 <= c && c * c <= (UNIT as int - 1) * (UNIT as int - 1);
    if n < (c + 1) * (c + 1) {
        assert(0 <= c && c * c <= n && n < (c + 1) * (c + 1));
        assert(exists|r: int| 0 <= r && #[trigger] (r * r) <= n && n < (r + 1) * (r + 1)) by {
            assert(0 <= c && c * c <= n && n < (c + 1) * (c + 1));
        }
        lemma_isqrt_unique(spec_isqrt(n), c, n);
    } else {
        lemma_isqrt_witness(n, c + 1);
    }
}

} // verus!
