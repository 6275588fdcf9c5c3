//! Single-level Worley search on an unbounded grid.
//!
//! The sample's containing cell is found by floor division, the 3x3
//! neighborhood around it is scanned in row-major order, and the neighbor
//! whose jittered center is nearest (first strict minimum wins) is returned
//! together with the floor of the Euclidean distance to that center.

use crate::hash::{cell_center, spec_cell_center, CENTER_ONE};
use crate::math::{floor_div, isqrt_u128, lemma_isqrt_bounds, spec_isqrt};
use crate::types::{Cell2, FieldSample, NoiseError, Vec2i};
use vstd::arithmetic::div_mod::{lemma_fundamental_div_mod, lemma_mod_division_less_than_divisor};
use vstd::prelude::*;

verus! {

/// Largest cell size, per axis, that the evaluator accepts.
pub const MAX_CELL_SIZE: i64 = 0x100_0000_0000;

/// Largest magnitude of a sample coordinate that the search accepts.
pub const MAX_SAMPLE_ABS: i64 = 0x1000_0000_0000;

/// Every returned distance is below this bound, given the domain above.
pub const MAX_DISTANCE: u64 = 0x8000_0000_0000;

/// The sample and cell size lie in the machine-bounded domain the search
/// is specified on.
pub open spec fn in_search_domain(sample: Vec2i, cell_size: Vec2i) -> bool {
    &&& -MAX_SAMPLE_ABS <= sample.x <= MAX_SAMPLE_ABS
    &&& -MAX_SAMPLE_ABS <= sample.y <= MAX_SAMPLE_ABS
    &&& 0 < cell_size.x <= MAX_CELL_SIZE
    &&& 0 < cell_size.y <= MAX_CELL_SIZE
}

/// x offset of scan step `k`, row-major over the 3x3 neighborhood.
pub open spec fn spec_offset_x(k: int) -> int {
    k / 3 - 1
}

/// y offset of scan step `k`, row-major over the 3x3 neighborhood.
pub open spec fn spec_offset_y(k: int) -> int {
    k % 3 - 1
}

/// The cell containing the sample: floor division of each coordinate by the
/// cell size.
pub open spec fn spec_base_x(sample: Vec2i, cell_size: Vec2i) -> int {
    sample.x as int / cell_size.x as int
}

/// The cell containing the sample: floor division of each coordinate by the
/// cell size.
pub open spec fn spec_base_y(sample: Vec2i, cell_size: Vec2i) -> int {
    sample.y as int / cell_size.y as int
}

/// The neighbor cell visited at scan step `k`.
pub open spec fn spec_cand_cell(sample: Vec2i, cell_size: Vec2i, k: int) -> Cell2 {
    Cell2 {
        x: (spec_base_x(sample, cell_size) + spec_offset_x(k)) as i64,
        y: (spec_base_y(sample, cell_size) + spec_offset_y(k)) as i64,
    }
}

/// World-space position, along one axis, of the center of cell `n`: the
/// cell's origin plus the jitter fraction of one cell size, rounded down to
/// a whole world unit.
pub open spec fn spec_world_center_axis(n: int, c: int, num: u32) -> int {
    n * c + (num * c) / (CENTER_ONE as int)
}

/// Squared Euclidean distance from the sample to the center of the neighbor
/// visited at scan step `k`.
pub open spec fn spec_cand_d2(sample: Vec2i, cell_size: Vec2i, seed: u64, k: int) -> int {
    let cell = spec_cand_cell(sample, cell_size, k);
    let cf = spec_cell_center(cell, seed);
    let wx = spec_world_center_axis(cell.x as int, cell_size.x as int, cf.x);
    let wy = spec_world_center_axis(cell.y as int, cell_size.y as int, cf.y);
    (wx - sample.x) * (wx - sample.x) + (wy - sample.y) * (wy - sample.y)
}

/// The winner after scan steps `0..=k`: the first candidate whose squared
/// distance is strictly below every earlier one, so ties keep the earlier
/// (row-major) neighbor.
pub open spec fn spec_best(sample: Vec2i, cell_size: Vec2i, seed: u64, k: int) -> (Cell2, int)
    decreases k,
{
    if k <= 0 {
        (spec_cand_cell(sample, cell_size, 0), spec_cand_d2(sample, cell_size, seed, 0))
    } else {
        let prev = spec_best(sample, cell_size, seed, k - 1);
        let d2 = spec_cand_d2(sample, cell_size, seed, k);
        if d2 < prev.1 {
            (spec_cand_cell(sample, cell_size, k), d2)
        } else {
            prev
        }
    }
}

/// The nearest neighbor cell over the whole 3x3 scan.
pub open spec fn spec_worley_cell(sample: Vec2i, cell_size: Vec2i, seed: u64) -> Cell2 {
    spec_best(sample, cell_size, seed, 8).0
}

/// The squared distance to the nearest neighbor's center.
pub open spec fn spec_worley_d2(sample: Vec2i, cell_size: Vec2i, seed: u64) -> int {
    spec_best(sample, cell_size, seed, 8).1
}

/// The distance the search returns: the floor of the Euclidean distance to
/// the nearest center.
pub open spec fn spec_worley_dist(sample: Vec2i, cell_size: Vec2i, seed: u64) -> int {
    spec_isqrt(spec_worley_d2(sample, cell_size, seed))
}

/// The winner of the scan is at least as close as every scanned candidate.
pub proof fn lemma_best_is_min(sample: Vec2i, cell_size: Vec2i, seed: u64, k: int, j: int)
    requires
        0 <= j <= k,
    ensures
        spec_best(sample, cell_size, seed, k).1 <= spec_cand_d2(sample, cell_size, seed, j),
    decreases k,
{
    if k > 0 && j < k {
        lemma_best_is_min(sample, cell_size, seed, k - 1, j);
    }
}

/// Squared Euclidean distance from the sample to the center of an
/// arbitrary cell of the grid.
pub open spec fn spec_cell_d2(sample: Vec2i, cell_size: Vec2i, seed: u64, cell: Cell2) -> int {
    let cf = spec_cell_center(cell, seed);
    let wx = spec_world_center_axis(cell.x as int, cell_size.x as int, cf.x);
    let wy = spec_world_center_axis(cell.y as int, cell_size.y as int, cf.y);
    (wx - sample.x) * (wx - sample.x) + (wy - sample.y) * (wy - sample.y)
}

/// A cell's center lies inside the cell's own square in world space.
pub proof fn lemma_center_inside_cell(n: int, c: int, num: u32)
    requires
        c > 0,
    ensures
        n * c <= spec_world_center_axis(n, c, num) < n * c + c,
{
    vstd::arithmetic::mul::lemma_mul_nonnegative(num as int, c as int);
    vstd::arithmetic::div_mod::lemma_div_pos_is_pos((num as int) * (c as int), CENTER_ONE as int);
    assert((num as int) * (c as int) < (CENTER_ONE as int) * (c as int)) by (nonlinear_arith)
        requires
            0 < c,
            num < CENTER_ONE,
    ;
    vstd::arithmetic::div_mod::lemma_multiply_divide_lt(
        (num as int) * (c as int),
        CENTER_ONE as int,
        c as int,
    );
}

/// The sample's own cell offers a candidate whose center is less than one
/// cell diagonal away.
pub proof fn lemma_own_cell_candidate_close(sample: Vec2i, cell_size: Vec2i, seed: u64)
    requires
        in_search_domain(sample, cell_size),
    ensures
        spec_cand_d2(sample, cell_size, seed, 4) < (cell_size.x as int) * (cell_size.x as int) + (
        cell_size.y as int) * (cell_size.y as int),
{
    let bx = spec_base_x(sample, cell_size);
    let by = spec_base_y(sample, cell_size);
    lemma_base_in_range(sample, cell_size);
    lemma_base_bounds(sample.x as int, cell_size.x as int);
    lemma_base_bounds(sample.y as int, cell_size.y as int);
    let cell = spec_cand_cell(sample, cell_size, 4);
    assert(cell.x as int == bx && cell.y as int == by);
    let cf = spec_cell_center(cell, seed);
    lemma_center_inside_cell(bx, cell_size.x as int, cf.x);
    lemma_center_inside_cell(by, cell_size.y as int, cf.y);
    let wx = spec_world_center_axis(bx, cell_size.x as int, cf.x);
    let wy = spec_world_center_axis(by, cell_size.y as int, cf.y);
    assert((wx - sample.x) * (wx - sample.x) < (cell_size.x as int) * (cell_size.x as int))
        by (nonlinear_arith)
        requires
            (cell_size.x as int) * bx <= (sample.x as int) < (cell_size.x as int) * (bx + 1),
            bx * (cell_size.x as int) <= wx < bx * (cell_size.x as int) + (cell_size.x as int),
            cell_size.x > 0,
    ;
    assert((wy - sample.y) * (wy - sample.y) < (cell_size.y as int) * (cell_size.y as int))
        by (nonlinear_arith)
        requires
            (cell_size.y as int) * by <= (sample.y as int) < (cell_size.y as int) * (by + 1),
            by * (cell_size.y as int) <= wy < by * (cell_size.y as int) + (cell_size.y as int),
            cell_size.y > 0,
    ;
}

/// Bounded neighbor sufficiency, for square cells: a cell three or more
/// cells away from the sample's containing cell, on either axis, is
/// strictly farther than the scanned winner, because its center stays
/// inside its own square.  The scanned 3x3 window can miss the true
/// nearest center only to a cell in the surrounding 5x5 window.
pub proof fn lemma_cells_beyond_window_lose(
    sample: Vec2i,
    cell_size: Vec2i,
    seed: u64,
    other: Cell2,
)
    requires
        in_search_domain(sample, cell_size),
        cell_size.x == cell_size.y,
        other.x as int <= spec_base_x(sample, cell_size) - 3 || other.x as int >= spec_base_x(
            sample,
            cell_size,
        ) + 3 || other.y as int <= spec_base_y(sample, cell_size) - 3 || other.y as int
            >= spec_base_y(sample, cell_size) + 3,
    ensures
        spec_worley_d2(sample, cell_size, seed) < spec_cell_d2(sample, cell_size, seed, other),
{
    let c = cell_size.x as int;
    let bx = spec_base_x(sample, cell_size);
    let by = spec_base_y(sample, cell_size);
    lemma_base_bounds(sample.x as int, cell_size.x as int);
    lemma_base_bounds(sample.y as int, cell_size.y as int);
    lemma_best_is_min(sample, cell_size, seed, 8, 4);
    lemma_own_cell_candidate_close(sample, cell_size, seed);
    let cf = spec_cell_center(other, seed);
    lemma_center_inside_cell(other.x as int, c, cf.x);
    lemma_center_inside_cell(other.y as int, c, cf.y);
    let wx = spec_world_center_axis(other.x as int, c, cf.x);
    let wy = spec_world_center_axis(other.y as int, c, cf.y);
    assert((wx - sample.x) * (wx - sample.x) + (wy - sample.y) * (wy - sample.y) > c * c + c * c)
        by (nonlinear_arith)
        requires
            c > 0,
            c * bx <= (sample.x as int) < c * (bx + 1),
            c * by <= (sample.y as int) < c * (by + 1),
            (other.x as int) * c <= wx < (other.x as int) * c + c,
            (other.y as int) * c <= wy < (other.y as int) * c + c,
            other.x as int <= bx - 3 || other.x as int >= bx + 3 || other.y as int <= by - 3
                || other.y as int >= by + 3,
    ;
}

/// The containing cell scales back into the sample's bounds: its origin is
/// at most one cell size away from the sample on each side.
pub proof fn lemma_base_bounds(s: int, c: int)
    requires
        c > 0,
    ensures
        c * (s / c) <= s < c * (s / c + 1),
{
    lemma_fundamental_div_mod(s, c);
    lemma_mod_division_less_than_divisor(s, c);
    assert(c * (s / c) <= s < c * (s / c + 1)) by (nonlinear_arith)
        requires
            c > 0,
            s == c * (s / c) + s % c,
            0 <= s % c < c,
    ;
}

/// The winning cell lies in the 3x3 neighborhood of the containing cell.
pub proof fn lemma_best_cell_near(sample: Vec2i, cell_size: Vec2i, seed: u64, k: int)
    requires
        in_search_domain(sample, cell_size),
        0 <= k <= 8,
    ensures
        spec_base_x(sample, cell_size) - 1 <= spec_best(sample, cell_size, seed, k).0.x as int
            <= spec_base_x(sample, cell_size) + 1,
        spec_base_y(sample, cell_size) - 1 <= spec_best(sample, cell_size, seed, k).0.y as int
            <= spec_base_y(sample, cell_size) + 1,
    decreases k,
{
    lemma_base_in_range(sample, cell_size);
    if k > 0 {
        lemma_best_cell_near(sample, cell_size, seed, k - 1);
    }
}

/// The containing cell's coordinates have magnitude at most the sample's,
/// so a neighbor coordinate fits comfortably in a machine integer.
pub proof fn lemma_base_in_range(sample: Vec2i, cell_size: Vec2i)
    requires
        in_search_domain(sample, cell_size),
    ensures
        -MAX_SAMPLE_ABS <= spec_base_x(sample, cell_size) <= MAX_SAMPLE_ABS,
        -MAX_SAMPLE_ABS <= spec_base_y(sample, cell_size) <= MAX_SAMPLE_ABS,
{
    lemma_base_bounds(sample.x as int, cell_size.x as int);
    lemma_base_bounds(sample.y as int, cell_size.y as int);
    assert(-MAX_SAMPLE_ABS <= spec_base_x(sample, cell_size) <= MAX_SAMPLE_ABS)
        by (nonlinear_arith)
        requires
            0 < cell_size.x as int,
            -MAX_SAMPLE_ABS <= sample.x as int <= MAX_SAMPLE_ABS,
            (cell_size.x as int) * spec_base_x(sample, cell_size) <= (sample.x as int),
            (sample.x as int) < (cell_size.x as int) * (spec_base_x(sample, cell_size) + 1),
            spec_base_x(sample, cell_size) == (sample.x as int) / (cell_size.x as int),
    ;
    assert(-MAX_SAMPLE_ABS <= spec_base_y(sample, cell_size) <= MAX_SAMPLE_ABS)
        by (nonlinear_arith)
        requires
            0 < cell_size.y as int,
            -MAX_SAMPLE_ABS <= sample.y as int <= MAX_SAMPLE_ABS,
            (cell_size.y as int) * spec_base_y(sample, cell_size) <= (sample.y as int),
            (sample.y as int) < (cell_size.y as int) * (spec_base_y(sample, cell_size) + 1),
            spec_base_y(sample, cell_size) == (sample.y as int) / (cell_size.y as int),
    ;
}

/// World-space center coordinate of cell `n` along one axis.
pub(crate) fn world_center_axis(n: i64, c: i64, num: u32) -> (w: i64)
    requires
        0 < c <= MAX_CELL_SIZE,
        -2 * MAX_SAMPLE_ABS <= n * c <= 2 * MAX_SAMPLE_ABS,
    ensures
        w == spec_world_center_axis(n as int, c as int, num),
        n * c <= w < n * c + c,
{
    let prod: i128 = (n as i128) * (c as i128);
    proof {
        assert((num as int) * (c as int) < 0x1_0000_0000_0000_0000_0000int) by (nonlinear_arith)
            requires
                0 < c <= MAX_CELL_SIZE,
                num < 0x1_0000_0000u64,
                MAX_CELL_SIZE == 0x100_0000_0000i64,
        ;
    }
    let frac: u128 = ((num as u128) * (c as u128)) / (CENTER_ONE as u128);
    proof {
        assert((num as int) * (c as int) < (CENTER_ONE as int) * (c as int)) by (nonlinear_arith)
            requires
                0 < c,
                num < CENTER_ONE,
        ;
        vstd::arithmetic::div_mod::lemma_multiply_divide_lt(
            (num as int) * (c as int),
            c as int,
            CENTER_ONE as int,
        );
        vstd::arithmetic::div_mod::lemma_div_pos_is_pos((num as int) * (c as int), CENTER_ONE as int);
        vstd::arithmetic::mul::lemma_mul_nonnegative(num as int, c as int);
    }
    (prod + (frac as i128)) as i64
}

/// Nearest-cell search at a single frequency.
///
/// Scans the 3x3 neighborhood of the cell containing `sample` in row-major
/// order; the first strict minimum of the squared center distance wins.  The
/// scan is sufficient exactly when every center stays inside its own cell,
/// which the hasher guarantees; equidistant candidates resolve by scan
/// order, a documented tie-break rather than an error.
pub fn worley(sample: Vec2i, cell_size: Vec2i, seed: u64) -> (r: Result<FieldSample, NoiseError>)
    requires
        -MAX_SAMPLE_ABS <= sample.x <= MAX_SAMPLE_ABS,
        -MAX_SAMPLE_ABS <= sample.y <= MAX_SAMPLE_ABS,
        cell_size.x <= MAX_CELL_SIZE,
        cell_size.y <= MAX_CELL_SIZE,
    ensures
        r is Err <==> !(cell_size.x > 0 && cell_size.y > 0),
        r matches Err(e) ==> e == NoiseError::NonPositiveCellSize,
        r matches Ok(fs) ==> {
            &&& fs.cell == spec_worley_cell(sample, cell_size, seed)
            &&& fs.dist == spec_worley_dist(sample, cell_size, seed)
            &&& fs.dist < MAX_DISTANCE
        },
{
    if cell_size.x <= 0 || cell_size.y <= 0 {
        return Err(NoiseError::NonPositiveCellSize);
    }
    let bx: i64 = floor_div(sample.x, cell_size.x);
    let by: i64 = floor_div(sample.y, cell_size.y);
    let first = candidate(sample, cell_size, seed, bx, by, 0);
    let mut best_cell: Cell2 = first.0;
    let mut best_d2: i128 = first.1;
    let mut k: usize = 1;
    while k < 9
        invariant
            in_search_domain(sample, cell_size),
            1 <= k <= 9,
            bx as int == spec_base_x(sample, cell_size),
            by as int == spec_base_y(sample, cell_size),
            best_cell == spec_best(sample, cell_size, seed, k - 1).0,
            best_d2 as int == spec_best(sample, cell_size, seed, k - 1).1,
            0 <= best_d2 < 0x4000_0000_0000_0000_0000_0000i128,
        decreases 9 - k,
    {
        let cand = candidate(sample, cell_size, seed, bx, by, k);
        if cand.1 < best_d2 {
            best_cell = cand.0;
            best_d2 = cand.1;
        }
        k = k + 1;
    }
    let dist: u64 = isqrt_u128(best_d2 as u128);
    proof {
        lemma_isqrt_bounds(best_d2 as int);
        assert(dist < MAX_DISTANCE) by (nonlinear_arith)
            requires
                (dist as int) * (dist as int) <= best_d2 as int,
                best_d2 < 0x4000_0000_0000_0000_0000_0000i128,
                dist >= 0,
                MAX_DISTANCE == 0x8000_0000_0000u64,
        ;
    }
    Ok(FieldSample { cell: best_cell, dist })
}

/// One scan step: the neighbor cell visited at step `k` and the squared
/// distance from the sample to its center.
fn candidate(sample: Vec2i, cell_size: Vec2i, seed: u64, bx: i64, by: i64, k: usize) -> (r: (
    Cell2,
    i128,
))
    requires
        in_search_domain(sample, cell_size),
        k < 9,
        bx as int == spec_base_x(sample, cell_size),
        by as int == spec_base_y(sample, cell_size),
    ensures
        r.0 == spec_cand_cell(sample, cell_size, k as int),
        r.1 as int == spec_cand_d2(sample, cell_size, seed, k as int),
        0 <= r.1 < 0x4000_0000_0000_0000_0000_0000i128,
{
    proof {
        lemma_base_in_range(sample, cell_size);
        lemma_base_bounds(sample.x as int, cell_size.x as int);
        lemma_base_bounds(sample.y as int, cell_size.y as int);
    }
    let ox: i64 = (k / 3) as i64 - 1;
    let oy: i64 = (k % 3) as i64 - 1;
    let nx: i64 = bx + ox;
    let ny: i64 = by + oy;
    let cell = Cell2 { x: nx, y: ny };
    proof {
        assert(cell == spec_cand_cell(sample, cell_size, k as int));
        // The neighbor's origin stays within one cell of the sample.
        assert(-2 * MAX_SAMPLE_ABS <= (nx as int) * (cell_size.x as int) <= 2 * MAX_SAMPLE_ABS)
            by (nonlinear_arith)
            requires
                nx as int == spec_base_x(sample, cell_size) + (ox as int),
                -1 <= ox as int <= 1,
                (cell_size.x as int) * spec_base_x(sample, cell_size) <= (sample.x as int),
                (sample.x as int) < (cell_size.x as int) * (spec_base_x(sample, cell_size) + 1),
                -MAX_SAMPLE_ABS <= sample.x as int <= MAX_SAMPLE_ABS,
                0 < cell_size.x <= MAX_CELL_SIZE,
                (MAX_CELL_SIZE as int) * 4 <= (MAX_SAMPLE_ABS as int),
        ;
        assert(-2 * MAX_SAMPLE_ABS <= (ny as int) * (cell_size.y as int) <= 2 * MAX_SAMPLE_ABS)
            by (nonlinear_arith)
            requires
                ny as int == spec_base_y(sample, cell_size) + (oy as int),
                -1 <= oy as int <= 1,
                (cell_size.y as int) * spec_base_y(sample, cell_size) <= (sample.y as int),
                (sample.y as int) < (cell_size.y as int) * (spec_base_y(sample, cell_size) + 1),
                -MAX_SAMPLE_ABS <= sample.y as int <= MAX_SAMPLE_ABS,
                0 < cell_size.y <= MAX_CELL_SIZE,
                (MAX_CELL_SIZE as int) * 4 <= (MAX_SAMPLE_ABS as int),
        ;
    }
    let cf = cell_center(cell, seed);
    let wx: i64 = world_center_axis(nx, cell_size.x, cf.x);
    let wy: i64 = world_center_axis(ny, cell_size.y, cf.y);
    let dx: i128 = (wx as i128) - (sample.x as i128);
    let dy: i128 = (wy as i128) - (sample.y as i128);
    proof {
        assert(-4 * MAX_SAMPLE_ABS <= dx <= 4 * MAX_SAMPLE_ABS && -4 * MAX_SAMPLE_ABS <= dy <= 4
            * MAX_SAMPLE_ABS);
        assert(0 <= dx * dx <= 0x1000_0000_0000_0000_0000_0000i128) by (nonlinear_arith)
            requires
                -4 * MAX_SAMPLE_ABS <= dx <= 4 * MAX_SAMPLE_ABS,
                MAX_SAMPLE_ABS == 0x1000_0000_0000i64,
        ;
        assert(0 <= dy * dy <= 0x1000_0000_0000_0000_0000_0000i128) by (nonlinear_arith)
            requires
                -4 * MAX_SAMPLE_ABS <= dy <= 4 * MAX_SAMPLE_ABS,
                MAX_SAMPLE_ABS == 0x1000_0000_0000i64,
        ;
        assert(0 <= dx * dx + dy * dy < 0x4000_0000_0000_0000_0000_0000i128) by (nonlinear_arith)
            requires
                -4 * MAX_SAMPLE_ABS <= dx <= 4 * MAX_SAMPLE_ABS,
                -4 * MAX_SAMPLE_ABS <= dy <= 4 * MAX_SAMPLE_ABS,
                MAX_SAMPLE_ABS == 0x1000_0000_0000i64,
        ;
    }
    let d2: i128 = dx * dx + dy * dy;
    (cell, d2)
}

} // verus!
