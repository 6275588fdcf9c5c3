//! Hierarchical composition under the doubling-grid policy, on a bounded
//! grid.
//!
//! The unit square is carried at a fixed-point resolution of `GRID_ONE`
//! units per axis.  A level with a cell count of `n` scales the normalised
//! sample by `n` and searches a grid whose cells are `GRID_ONE` units wide;
//! neighbor coordinates are clamped to the valid grid range rather than
//! wrapped, which deliberately biases border cells toward the interior.
//! Each depth level doubles the cell count of the level before it: the
//! finer level's winning cell is renormalised back into the unit square and
//! becomes the next level's sample, and the final level's distance alone is
//! returned, with no blending, giving sharp nested cell boundaries.

use crate::hash::spec_cell_center;
use crate::math::{isqrt_u128, lemma_isqrt_bounds, lemma_isqrt_nonneg, spec_isqrt};
use crate::types::{Cell2, FieldSample, NoiseError, Vec2i};
use crate::worley::{spec_offset_x, spec_offset_y, spec_world_center_axis, MAX_DISTANCE};
use vstd::arithmetic::div_mod::{lemma_div_pos_is_pos, lemma_multiply_divide_lt};
use vstd::arithmetic::power2::{lemma2_to64, lemma_pow2_pos, lemma_pow2_strictly_increases, pow2};
use vstd::prelude::*;

verus! {

/// Fixed-point resolution of the normalised unit square: positions in
/// `[0, GRID_ONE)` cover `[0, 1)` of the square, and one grid cell is
/// `GRID_ONE` scaled units wide at every level.
pub const GRID_ONE: i64 = 0x1_0000;

/// `v` clamped to the valid cell range `[0, n)` of a bounded grid.
pub open spec fn spec_clamp(v: int, n: int) -> int {
    if v < 0 {
        0
    } else if v > n - 1 {
        n - 1
    } else {
        v
    }
}

/// The cell containing the sample at a level with `n` cells per axis:
/// the sample is scaled by the count, then floor-divided by the cell width.
pub open spec fn spec_grid_base_x(sample: Vec2i, count: Cell2) -> int {
    (sample.x * count.x) / (GRID_ONE as int)
}

/// The cell containing the sample at a level with `n` cells per axis.
pub open spec fn spec_grid_base_y(sample: Vec2i, count: Cell2) -> int {
    (sample.y * count.y) / (GRID_ONE as int)
}

/// The neighbor visited at scan step `k`, clamped into the grid.
pub open spec fn spec_grid_cand_cell(sample: Vec2i, count: Cell2, k: int) -> Cell2 {
    Cell2 {
        x: spec_clamp(spec_grid_base_x(sample, count) + spec_offset_x(k), count.x as int) as i64,
        y: spec_clamp(spec_grid_base_y(sample, count) + spec_offset_y(k), count.y as int) as i64,
    }
}

/// Squared distance, in scaled units, from the sample to the center of the
/// neighbor visited at scan step `k`.
pub open spec fn spec_grid_cand_d2(sample: Vec2i, count: Cell2, seed: u64, k: int) -> int {
    let cell = spec_grid_cand_cell(sample, count, k);
    let cf = spec_cell_center(cell, seed);
    let wx = spec_world_center_axis(cell.x as int, GRID_ONE as int, cf.x);
    let wy = spec_world_center_axis(cell.y as int, GRID_ONE as int, cf.y);
    let sx = sample.x * count.x;
    let sy = sample.y * count.y;
    (wx - sx) * (wx - sx) + (wy - sy) * (wy - sy)
}

/// The winner after scan steps `0..=k` of the bounded search; the first
/// strict minimum wins, as in the unbounded search.
pub open spec fn spec_grid_best(sample: Vec2i, count: Cell2, seed: u64, k: int) -> (Cell2, int)
    decreases k,
{
    if k <= 0 {
        (spec_grid_cand_cell(sample, count, 0), spec_grid_cand_d2(sample, count, seed, 0))
    } else {
        let prev = spec_grid_best(sample, count, seed, k - 1);
        let d2 = spec_grid_cand_d2(sample, count, seed, k);
        if d2 < prev.1 {
            (spec_grid_cand_cell(sample, count, k), d2)
        } else {
            prev
        }
    }
}

/// The nearest cell of the bounded single-level search.
pub open spec fn spec_grid_cell(sample: Vec2i, count: Cell2, seed: u64) -> Cell2 {
    spec_grid_best(sample, count, seed, 8).0
}

/// The squared distance of the bounded single-level search.
pub open spec fn spec_grid_d2(sample: Vec2i, count: Cell2, seed: u64) -> int {
    spec_grid_best(sample, count, seed, 8).1
}

/// The distance of the bounded single-level search: the floor of the
/// Euclidean distance to the nearest center, in scaled units.
pub open spec fn spec_grid_dist(sample: Vec2i, count: Cell2, seed: u64) -> int {
    spec_isqrt(spec_grid_d2(sample, count, seed))
}

/// A finer level's winning cell renormalised into the unit square: the
/// cell origin as a fraction of its grid, at the square's resolution.
pub open spec fn spec_renorm(c: int, n: int) -> int {
    (c * (GRID_ONE as int)) / n
}

/// The doubling-grid field at `depth`: depth zero searches the base count
/// directly; a deeper level renormalises the previous level's winning cell
/// and searches a grid with twice that level's count.  The deepest level's
/// distance is returned alone.
pub open spec fn spec_doubling(sample: Vec2i, count: Cell2, seed: u64, depth: nat) -> (Cell2, int)
    decreases depth,
{
    if depth == 0 {
        (spec_grid_cell(sample, count, seed), spec_grid_dist(sample, count, seed))
    } else {
        let fin = spec_doubling(sample, count, seed, (depth - 1) as nat);
        let fnx = count.x * pow2((depth - 1) as nat);
        let fny = count.y * pow2((depth - 1) as nat);
        let ns = Vec2i {
            x: spec_renorm(fin.0.x as int, fnx as int) as i64,
            y: spec_renorm(fin.0.y as int, fny as int) as i64,
        };
        let cnt = Cell2 { x: (count.x * pow2(depth)) as i64, y: (count.y * pow2(depth)) as i64 };
        (spec_grid_cell(ns, cnt, seed), spec_grid_dist(ns, cnt, seed))
    }
}

/// Every candidate of the bounded search, and hence its winner, is a valid
/// index of the grid.
pub proof fn lemma_grid_best_in_range(sample: Vec2i, count: Cell2, seed: u64, k: int)
    requires
        count.x >= 1,
        count.y >= 1,
        0 <= k <= 8,
    ensures
        0 <= spec_grid_best(sample, count, seed, k).0.x < count.x,
        0 <= spec_grid_best(sample, count, seed, k).0.y < count.y,
    decreases k,
{
    if k > 0 {
        lemma_grid_best_in_range(sample, count, seed, k - 1);
    }
}

/// The winner of the bounded scan is at least as close as every scanned
/// candidate.
pub proof fn lemma_grid_best_is_min(sample: Vec2i, count: Cell2, seed: u64, k: int, j: int)
    requires
        0 <= j <= k,
    ensures
        spec_grid_best(sample, count, seed, k).1 <= spec_grid_cand_d2(sample, count, seed, j),
    decreases k,
{
    if k > 0 && j < k {
        lemma_grid_best_is_min(sample, count, seed, k - 1, j);
    }
}

/// The doubling-grid distance is never negative, at any depth.
pub proof fn lemma_doubling_dist_nonneg(sample: Vec2i, count: Cell2, seed: u64, depth: nat)
    ensures
        spec_doubling(sample, count, seed, depth).1 >= 0,
{
    if depth == 0 {
        lemma_isqrt_nonneg(spec_grid_d2(sample, count, seed));
    } else {
        let fin = spec_doubling(sample, count, seed, (depth - 1) as nat);
        let fnx = count.x * pow2((depth - 1) as nat);
        let fny = count.y * pow2((depth - 1) as nat);
        let ns = Vec2i {
            x: spec_renorm(fin.0.x as int, fnx as int) as i64,
            y: spec_renorm(fin.0.y as int, fny as int) as i64,
        };
        let cnt = Cell2 { x: (count.x * pow2(depth)) as i64, y: (count.y * pow2(depth)) as i64 };
        lemma_isqrt_nonneg(spec_grid_d2(ns, cnt, seed));
    }
}

/// Clamps a neighbor coordinate into the valid cell range of the grid.
fn clamp_cell(v: i64, n: i64) -> (r: i64)
    requires
        n >= 1,
    ensures
        r as int == spec_clamp(v as int, n as int),
        0 <= r < n,
{
    if v < 0 {
        0
    } else if v > n - 1 {
        n - 1
    } else {
        v
    }
}

/// One scan step of the bounded search.
fn grid_candidate(sample: Vec2i, count: Cell2, seed: u64, bx: i64, by: i64, k: usize) -> (r: (
    Cell2,
    i128,
))
    requires
        0 <= sample.x < GRID_ONE,
        0 <= sample.y < GRID_ONE,
        1 <= count.x <= GRID_ONE,
        1 <= count.y <= GRID_ONE,
        k < 9,
        bx as int == spec_grid_base_x(sample, count),
        by as int == spec_grid_base_y(sample, count),
        0 <= bx < count.x,
        0 <= by < count.y,
    ensures
        r.0 == spec_grid_cand_cell(sample, count, k as int),
        r.1 as int == spec_grid_cand_d2(sample, count, seed, k as int),
        0 <= r.1 < 0x10_0000_0000_0000_0000i128,
{
    let ox: i64 = (k / 3) as i64 - 1;
    let oy: i64 = (k % 3) as i64 - 1;
    let nx: i64 = clamp_cell(bx + ox, count.x);
    let ny: i64 = clamp_cell(by + oy, count.y);
    let cell = Cell2 { x: nx, y: ny };
    let cf = crate::hash::cell_center(cell, seed);
    proof {
        assert((nx as int) * (GRID_ONE as int) <= (GRID_ONE as int) * (GRID_ONE as int))
            by (nonlinear_arith)
            requires
                0 <= nx < GRID_ONE,
                GRID_ONE == 0x1_0000i64,
        ;
        assert(0 <= (nx as int) * (GRID_ONE as int)) by (nonlinear_arith)
            requires
                0 <= nx,
                GRID_ONE == 0x1_0000i64,
        ;
        assert((ny as int) * (GRID_ONE as int) <= (GRID_ONE as int) * (GRID_ONE as int))
            by (nonlinear_arith)
            requires
                0 <= ny < GRID_ONE,
                GRID_ONE == 0x1_0000i64,
        ;
        assert(0 <= (ny as int) * (GRID_ONE as int)) by (nonlinear_arith)
            requires
                0 <= ny,
                GRID_ONE == 0x1_0000i64,
        ;
    }
    let wx: i64 = crate::worley::world_center_axis(nx, GRID_ONE, cf.x);
    let wy: i64 = crate::worley::world_center_axis(ny, GRID_ONE, cf.y);
    let sx: i64 = scaled_coord(sample.x, count.x);
    let sy: i64 = scaled_coord(sample.y, count.y);
    let dx: i128 = (wx as i128) - (sx as i128);
    let dy: i128 = (wy as i128) - (sy as i128);
    proof {
        assert(-0x2_0000_0000i128 <= dx <= 0x2_0000_0000i128 && -0x2_0000_0000i128 <= dy
            <= 0x2_0000_0000i128);
        assert(0 <= dx * dx <= 0x4_0000_0000_0000_0000i128) by (nonlinear_arith)
            requires
                -0x2_0000_0000i128 <= dx <= 0x2_0000_0000i128,
        ;
        assert(0 <= dy * dy <= 0x4_0000_0000_0000_0000i128) by (nonlinear_arith)
            requires
                -0x2_0000_0000i128 <= dy <= 0x2_0000_0000i128,
        ;
    }
    let d2: i128 = dx * dx + dy * dy;
    (cell, d2)
}

/// A normalised coordinate scaled by the level's cell count.
fn scaled_coord(s: i64, n: i64) -> (r: i64)
    requires
        0 <= s < GRID_ONE,
        1 <= n <= GRID_ONE,
    ensures
        r as int == s as int * n as int,
        0 <= r <= 0x1_0000_0000i64,
{
    proof {
        assert(0 <= (s as int) * (n as int) <= 0x1_0000_0000int) by (nonlinear_arith)
            requires
                0 <= s < 0x1_0000i64,
                1 <= n <= 0x1_0000i64,
                GRID_ONE == 0x1_0000i64,
        ;
    }
    s * n
}

/// Nearest-cell search at a single level of a bounded grid.
///
/// As the unbounded search, but neighbor coordinates are clamped to the
/// grid's valid range instead of leaving it, so the returned cell is always
/// a valid index; at the border, clamped duplicates simply rescan a
/// neighbor already seen.
pub fn grid_worley(sample: Vec2i, count: Cell2, seed: u64) -> (r: Result<FieldSample, NoiseError>)
    requires
        0 <= sample.x < GRID_ONE,
        0 <= sample.y < GRID_ONE,
        count.x <= GRID_ONE,
        count.y <= GRID_ONE,
    ensures
        r is Err <==> !(count.x > 0 && count.y > 0),
        r matches Err(e) ==> e == NoiseError::NonPositiveCellCount,
        r matches Ok(fs) ==> {
            &&& fs.cell == spec_grid_cell(sample, count, seed)
            &&& fs.dist as int == spec_grid_dist(sample, count, seed)
            &&& 0 <= fs.cell.x < count.x
            &&& 0 <= fs.cell.y < count.y
            &&& fs.dist < MAX_DISTANCE
        },
{
    if count.x <= 0 || count.y <= 0 {
        return Err(NoiseError::NonPositiveCellCount);
    }
    let sx: i64 = scaled_coord(sample.x, count.x);
    let sy: i64 = scaled_coord(sample.y, count.y);
    let bx: i64 = sx / GRID_ONE;
    let by: i64 = sy / GRID_ONE;
    proof {
        lemma_div_pos_is_pos(sx as int, GRID_ONE as int);
        lemma_div_pos_is_pos(sy as int, GRID_ONE as int);
        assert((sx as int) < (count.x as int) * (GRID_ONE as int)) by (nonlinear_arith)
            requires
                sx as int == (sample.x as int) * (count.x as int),
                0 <= sample.x < GRID_ONE,
                count.x >= 1,
                GRID_ONE == 0x1_0000i64,
        ;
        assert((sy as int) < (count.y as int) * (GRID_ONE as int)) by (nonlinear_arith)
            requires
                sy as int == (sample.y as int) * (count.y as int),
                0 <= sample.y < GRID_ONE,
                count.y >= 1,
                GRID_ONE == 0x1_0000i64,
        ;
        lemma_multiply_divide_lt(sx as int, count.x as int, GRID_ONE as int);
        lemma_multiply_divide_lt(sy as int, count.y as int, GRID_ONE as int);
    }
    let first = grid_candidate(sample, count, seed, bx, by, 0);
    let mut best_cell: Cell2 = first.0;
    let mut best_d2: i128 = first.1;
    let mut k: usize = 1;
    while k < 9
        invariant
            0 <= sample.x < GRID_ONE,
            0 <= sample.y < GRID_ONE,
            1 <= count.x <= GRID_ONE,
            1 <= count.y <= GRID_ONE,
            1 <= k <= 9,
            bx as int == spec_grid_base_x(sample, count),
            by as int == spec_grid_base_y(sample, count),
            0 <= bx < count.x,
            0 <= by < count.y,
            best_cell == spec_grid_best(sample, count, seed, k - 1).0,
            best_d2 as int == spec_grid_best(sample, count, seed, k - 1).1,
            0 <= best_d2 < 0x10_0000_0000_0000_0000i128,
        decreases 9 - k,
    {
        let cand = grid_candidate(sample, count, seed, bx, by, k);
        if cand.1 < best_d2 {
            best_cell = cand.0;
            best_d2 = cand.1;
        }
        k = k + 1;
    }
    let dist: u64 = isqrt_u128(best_d2 as u128);
    proof {
        lemma_isqrt_bounds(best_d2 as int);
        lemma_grid_best_in_range(sample, count, seed, 8);
        assert(dist < MAX_DISTANCE) by (nonlinear_arith)
            requires
                (dist as int) * (dist as int) <= best_d2 as int,
                best_d2 < 0x10_0000_0000_0000_0000i128,
                dist >= 0,
                MAX_DISTANCE == 0x8000_0000_0000u64,
        ;
    }
    Ok(FieldSample { cell: best_cell, dist })
}

/// Two to the `e`, as a machine integer, for exponents within the square's
/// resolution.
fn pow2_i64(e: usize) -> (r: i64)
    requires
        e <= 16,
    ensures
        r as int == pow2(e as nat),
        1 <= r <= GRID_ONE,
{
    proof {
        lemma2_to64();
        if e < 16 {
            lemma_pow2_strictly_increases(e as nat, 16);
        }
        lemma_pow2_pos(e as nat);
        vstd::bits::lemma_u64_shl_is_mul(1u64, e as u64);
    }
    let p: u64 = 1u64 << (e as u64);
    p as i64
}

/// A winning cell renormalised into the unit square.
fn renorm_coord(c: i64, n: i64) -> (r: i64)
    requires
        0 <= c < n,
        1 <= n <= GRID_ONE,
    ensures
        r as int == spec_renorm(c as int, n as int),
        0 <= r < GRID_ONE,
{
    proof {
        assert((c as int) * (GRID_ONE as int) < (n as int) * (GRID_ONE as int))
            by (nonlinear_arith)
            requires
                0 <= c < n,
                1 <= n <= GRID_ONE,
                GRID_ONE == 0x1_0000i64,
        ;
        vstd::arithmetic::mul::lemma_mul_nonnegative(c as int, GRID_ONE as int);
        lemma_multiply_divide_lt((c as int) * (GRID_ONE as int), n as int, GRID_ONE as int);
        lemma_div_pos_is_pos((c as int) * (GRID_ONE as int), n as int);
    }
    let num: u64 = (c as u64) * (GRID_ONE as u64);
    (num / (n as u64)) as i64
}

/// The doubling hierarchy below a validated top level: every level's count
/// fits the resolution, so no level can fail.
#[verifier::rlimit(60)]
fn doubling_rec(sample: Vec2i, count: Cell2, seed: u64, depth: usize) -> (fs: FieldSample)
    requires
        0 <= sample.x < GRID_ONE,
        0 <= sample.y < GRID_ONE,
        count.x >= 1,
        count.y >= 1,
        count.x * pow2(depth as nat) <= GRID_ONE as int,
        count.y * pow2(depth as nat) <= GRID_ONE as int,
    ensures
        fs.cell == spec_doubling(sample, count, seed, depth as nat).0,
        fs.dist as int == spec_doubling(sample, count, seed, depth as nat).1,
        0 <= fs.cell.x < count.x * pow2(depth as nat),
        0 <= fs.cell.y < count.y * pow2(depth as nat),
        fs.dist < MAX_DISTANCE,
    decreases depth,
{
    proof {
        lemma_pow2_pos(depth as nat);
        if depth > 16 {
            lemma2_to64();
            lemma_pow2_strictly_increases(16, depth as nat);
            assert(count.x * pow2(depth as nat) > GRID_ONE as int) by (nonlinear_arith)
                requires
                    count.x >= 1,
                    pow2(depth as nat) > 0x1_0000,
                    GRID_ONE == 0x1_0000i64,
            ;
        }
        assert(count.x <= GRID_ONE && count.y <= GRID_ONE) by (nonlinear_arith)
            requires
                count.x >= 1,
                count.y >= 1,
                pow2(depth as nat) >= 1,
                count.x * pow2(depth as nat) <= GRID_ONE as int,
                count.y * pow2(depth as nat) <= GRID_ONE as int,
        ;
    }
    if depth == 0 {
        proof {
            lemma2_to64();
        }
        match grid_worley(sample, count, seed) {
            Ok(fs) => fs,
            Err(_) => {
                proof {
                    assert(false);
                }
                FieldSample { cell: Cell2 { x: 0, y: 0 }, dist: 0 }
            },
        }
    } else {
        proof {
            lemma_pow2_pos((depth - 1) as nat);
            lemma_pow2_strictly_increases((depth - 1) as nat, depth as nat);
            assert(count.x * pow2((depth - 1) as nat) <= count.x * pow2(depth as nat) && count.y
                * pow2((depth - 1) as nat) <= count.y * pow2(depth as nat)) by (nonlinear_arith)
                requires
                    count.x >= 1,
                    count.y >= 1,
                    pow2((depth - 1) as nat) <= pow2(depth as nat),
            ;
        }
        let fin = doubling_rec(sample, count, seed, depth - 1);
        let p_prev: i64 = pow2_i64(depth - 1);
        let fnx: i64 = count.x * p_prev;
        let fny: i64 = count.y * p_prev;
        let nsx: i64 = renorm_coord(fin.cell.x, fnx);
        let nsy: i64 = renorm_coord(fin.cell.y, fny);
        let ns = Vec2i { x: nsx, y: nsy };
        let p_cur: i64 = pow2_i64(depth);
        proof {
            assert(count.x * (p_cur as int) == count.x * pow2(depth as nat) && count.y * (
            p_cur as int) == count.y * pow2(depth as nat)) by (nonlinear_arith)
                requires
                    p_cur as int == pow2(depth as nat),
            ;
        }
        let cnx: i64 = count.x * p_cur;
        let cny: i64 = count.y * p_cur;
        let cnt = Cell2 { x: cnx, y: cny };
        match grid_worley(ns, cnt, seed) {
            Ok(fs) => fs,
            Err(_) => {
                proof {
                    assert(false);
                }
                FieldSample { cell: Cell2 { x: 0, y: 0 }, dist: 0 }
            },
        }
    }
}

/// Hierarchical Worley field under the doubling-grid policy.
///
/// Validates the domain, then evaluates level by level from the base count
/// upward, doubling the count at each level.  A non-positive cell count, or
/// a depth whose doubled count would leave the resolution of the unit
/// square, is a fail-fast domain error.
pub fn hierarchical_worley_doubling(
    sample: Vec2i,
    cell_count: Cell2,
    seed: u64,
    depth: usize,
) -> (r: Result<FieldSample, NoiseError>)
    requires
        0 <= sample.x < GRID_ONE,
        0 <= sample.y < GRID_ONE,
        cell_count.x <= GRID_ONE,
        cell_count.y <= GRID_ONE,
    ensures
        r is Err <==> (cell_count.x <= 0 || cell_count.y <= 0 || cell_count.x * pow2(depth as nat)
            > GRID_ONE || cell_count.y * pow2(depth as nat) > GRID_ONE),
        r matches Err(e) ==> e == if cell_count.x <= 0 || cell_count.y <= 0 {
            NoiseError::NonPositiveCellCount
        } else {
            NoiseError::ResolutionOverflow
        },
        r matches Ok(fs) ==> {
            &&& fs.cell == spec_doubling(sample, cell_count, seed, depth as nat).0
            &&& fs.dist as int == spec_doubling(sample, cell_count, seed, depth as nat).1
            &&& 0 <= fs.cell.x < cell_count.x * pow2(depth as nat)
            &&& 0 <= fs.cell.y < cell_count.y * pow2(depth as nat)
            &&& fs.dist < MAX_DISTANCE
        },
{
    if cell_count.x <= 0 || cell_count.y <= 0 {
        return Err(NoiseError::NonPositiveCellCount);
    }
    if depth > 16 {
        proof {
            lemma2_to64();
            lemma_pow2_strictly_increases(16, depth as nat);
            assert(cell_count.x * pow2(depth as nat) > GRID_ONE as int) by (nonlinear_arith)
                requires
                    cell_count.x >= 1,
                    pow2(depth as nat) > 0x1_0000,
                    GRID_ONE == 0x1_0000i64,
            ;
        }
        return Err(NoiseError::ResolutionOverflow);
    }
    let p: i64 = pow2_i64(depth);
    proof {
        assert(1 <= cell_count.x * (p as int) <= 0x1_0000_0000int && 1 <= cell_count.y * (
        p as int) <= 0x1_0000_0000int) by (nonlinear_arith)
            requires
                1 <= cell_count.x <= GRID_ONE,
                1 <= cell_count.y <= GRID_ONE,
                1 <= p <= GRID_ONE,
                GRID_ONE == 0x1_0000i64,
        ;
    }
    let cdx: i64 = cell_count.x * p;
    let cdy: i64 = cell_count.y * p;
    if cdx > GRID_ONE || cdy > GRID_ONE {
        return Err(NoiseError::ResolutionOverflow);
    }
    Ok(doubling_rec(sample, cell_count, seed, depth))
}

} // verus!
