//! Hierarchical composition under the continuous-growth policy.
//!
//! The cell size is divided by an integer growth factor per depth level and
//! the finest level is evaluated first, by full recursion to depth zero.
//! The finer level's winning cell is re-projected into world space and
//! becomes the coarser level's sample; the distances chain through a fixed
//! convex blend of one quarter of the coarser distance plus three quarters
//! of the accumulated finer distance.  The weights are chained per step, not
//! re-normalised across depths, so the finest levels dominate the blend; the
//! base case contributes a sentinel zero distance, making the first blend
//! effectively the distance of depth one.

use crate::math::floor_div;
use crate::types::{Cell2, FieldSample, NoiseError, Vec2i};
use crate::worley::{
    in_search_domain, lemma_base_bounds, lemma_base_in_range, lemma_best_cell_near, spec_base_x,
    spec_base_y, spec_worley_cell, spec_worley_d2, spec_worley_dist, worley, MAX_CELL_SIZE,
    MAX_DISTANCE, MAX_SAMPLE_ABS,
};
use vstd::arithmetic::div_mod::{
    lemma_div_is_ordered, lemma_div_multiples_vanish, lemma_div_nonincreasing, lemma_div_pos_is_pos,
};
use vstd::prelude::*;

verus! {

/// Largest magnitude of a sample coordinate accepted at the top of the
/// hierarchy; re-projected samples of inner levels stay within the wider
/// bound of the single-level search.
pub const MAX_FIELD_SAMPLE_ABS: i64 = 0x100_0000_0000;

/// The fixed convex blend of a coarser and an accumulated finer distance:
/// one quarter of the coarser plus three quarters of the finer, rounded
/// down.  The weights sum to one, so the result stays between the two.
pub open spec fn spec_blend(coarse: int, fine: int) -> int {
    (coarse + 3 * fine) / 4
}

/// The cell size after `depth` rounds of division by `growth`.
pub open spec fn spec_refined(c: int, g: int, depth: nat) -> int
    decreases depth,
{
    if depth == 0 {
        c
    } else {
        spec_refined(c / g, g, (depth - 1) as nat)
    }
}

/// The hierarchical field: winning cell and blended distance.  Depth zero
/// is a direct single-level search with a sentinel zero distance; a deeper
/// level re-projects the finer level's winning cell as its own sample.
pub open spec fn spec_hier(sample: Vec2i, cell_size: Vec2i, seed: u64, depth: nat, growth: int) -> (
    Cell2,
    int,
)
    decreases depth,
{
    if depth == 0 {
        (spec_worley_cell(sample, cell_size, seed), 0)
    } else {
        let finer = Vec2i {
            x: (cell_size.x as int / growth) as i64,
            y: (cell_size.y as int / growth) as i64,
        };
        let fin = spec_hier(sample, finer, seed, (depth - 1) as nat, growth);
        let ns = Vec2i {
            x: ((fin.0.x as int) * (finer.x as int)) as i64,
            y: ((fin.0.y as int) * (finer.y as int)) as i64,
        };
        let d = spec_worley_dist(ns, cell_size, seed);
        (spec_worley_cell(ns, cell_size, seed), spec_blend(d, fin.1))
    }
}

/// Blended distances stay inside the convex range of what they blend: the
/// result is never negative and never exceeds the larger component, and it
/// never falls below the smaller one.
pub proof fn lemma_blend_bounds(coarse: int, fine: int)
    requires
        coarse >= 0,
        fine >= 0,
    ensures
        0 <= spec_blend(coarse, fine),
        spec_blend(coarse, fine) <= if coarse >= fine {
            coarse
        } else {
            fine
        },
        spec_blend(coarse, fine) >= if coarse <= fine {
            coarse
        } else {
            fine
        },
{
    let lo = if coarse <= fine {
        coarse
    } else {
        fine
    };
    let hi = if coarse >= fine {
        coarse
    } else {
        fine
    };
    lemma_div_is_ordered(4 * lo, coarse + 3 * fine, 4);
    lemma_div_is_ordered(coarse + 3 * fine, 4 * hi, 4);
    lemma_div_multiples_vanish(lo, 4);
    lemma_div_multiples_vanish(hi, 4);
    lemma_div_pos_is_pos(coarse + 3 * fine, 4);
}

/// A grid already refined to nothing stays at nothing.
pub proof fn lemma_refined_zero(g: int, depth: nat)
    requires
        g >= 1,
    ensures
        spec_refined(0, g, depth) == 0,
    decreases depth,
{
    if depth > 0 {
        vstd::arithmetic::div_mod::lemma_div_of0(g);
        lemma_refined_zero(g, (depth - 1) as nat);
    }
}

/// The hierarchical distance is never negative, at any depth.
pub proof fn lemma_hier_dist_nonneg(
    sample: Vec2i,
    cell_size: Vec2i,
    seed: u64,
    depth: nat,
    growth: int,
)
    ensures
        spec_hier(sample, cell_size, seed, depth, growth).1 >= 0,
    decreases depth,
{
    if depth > 0 {
        let finer = Vec2i {
            x: (cell_size.x as int / growth) as i64,
            y: (cell_size.y as int / growth) as i64,
        };
        lemma_hier_dist_nonneg(sample, finer, seed, (depth - 1) as nat, growth);
        let fin = spec_hier(sample, finer, seed, (depth - 1) as nat, growth);
        let ns = Vec2i {
            x: ((fin.0.x as int) * (finer.x as int)) as i64,
            y: ((fin.0.y as int) * (finer.y as int)) as i64,
        };
        crate::math::lemma_isqrt_nonneg(spec_worley_d2(ns, cell_size, seed));
        lemma_blend_bounds(spec_worley_dist(ns, cell_size, seed), fin.1);
    }
}

/// For a positive depth, the hierarchical distance lies within the convex
/// range implied by its two children: at least the smaller and at most the
/// larger of the coarser level's distance and the accumulated finer
/// distance.
pub proof fn lemma_hier_blend_in_range(
    sample: Vec2i,
    cell_size: Vec2i,
    seed: u64,
    depth: nat,
    growth: int,
)
    requires
        depth >= 1,
    ensures
        ({
            let finer = Vec2i {
                x: (cell_size.x as int / growth) as i64,
                y: (cell_size.y as int / growth) as i64,
            };
            let fin = spec_hier(sample, finer, seed, (depth - 1) as nat, growth);
            let ns = Vec2i {
                x: ((fin.0.x as int) * (finer.x as int)) as i64,
                y: ((fin.0.y as int) * (finer.y as int)) as i64,
            };
            let coarse = spec_worley_dist(ns, cell_size, seed);
            let out = spec_hier(sample, cell_size, seed, depth, growth).1;
            &&& 0 <= out
            &&& out <= if coarse >= fin.1 {
                coarse
            } else {
                fin.1
            }
            &&& out >= if coarse <= fin.1 {
                coarse
            } else {
                fin.1
            }
        }),
{
    let finer = Vec2i {
        x: (cell_size.x as int / growth) as i64,
        y: (cell_size.y as int / growth) as i64,
    };
    let fin = spec_hier(sample, finer, seed, (depth - 1) as nat, growth);
    let ns = Vec2i {
        x: ((fin.0.x as int) * (finer.x as int)) as i64,
        y: ((fin.0.y as int) * (finer.y as int)) as i64,
    };
    lemma_hier_dist_nonneg(sample, finer, seed, (depth - 1) as nat, growth);
    crate::math::lemma_isqrt_nonneg(spec_worley_d2(ns, cell_size, seed));
    lemma_blend_bounds(spec_worley_dist(ns, cell_size, seed), fin.1);
}

/// The field evaluator is a pure function of its arguments: two results
/// computed for the same sample, grid, seed, depth and growth are equal.
pub proof fn lemma_field_deterministic(
    sample: Vec2i,
    cell_size: Vec2i,
    seed: u64,
    depth: nat,
    growth: int,
    r1: (Cell2, int),
    r2: (Cell2, int),
)
    requires
        r1 == spec_hier(sample, cell_size, seed, depth, growth),
        r2 == spec_hier(sample, cell_size, seed, depth, growth),
    ensures
        r1 == r2,
{
}

/// Blends a coarser-level distance with the accumulated finer distance.
pub fn blend_distance(coarse: u64, fine: u64) -> (r: u64)
    requires
        coarse < MAX_DISTANCE,
        fine < MAX_DISTANCE,
    ensures
        r == spec_blend(coarse as int, fine as int),
        r < MAX_DISTANCE,
{
    proof {
        lemma_blend_bounds(coarse as int, fine as int);
    }
    (coarse + 3 * fine) / 4
}

/// The hierarchy below a validated top level.  The cell size is already
/// positive; the result is degenerate only if some deeper level's cell size
/// underflows to nothing.
fn hier_rec(sample: Vec2i, cell_size: Vec2i, seed: u64, depth: usize, growth: i64) -> (r: Result<
    FieldSample,
    NoiseError,
>)
    requires
        -MAX_FIELD_SAMPLE_ABS <= sample.x <= MAX_FIELD_SAMPLE_ABS,
        -MAX_FIELD_SAMPLE_ABS <= sample.y <= MAX_FIELD_SAMPLE_ABS,
        0 < cell_size.x <= MAX_CELL_SIZE,
        0 < cell_size.y <= MAX_CELL_SIZE,
        growth >= 2,
    ensures
        r is Err <==> (spec_refined(cell_size.x as int, growth as int, depth as nat) <= 0
            || spec_refined(cell_size.y as int, growth as int, depth as nat) <= 0),
        r matches Err(e) ==> e == NoiseError::CellSizeUnderflow,
        r matches Ok(fs) ==> {
            &&& fs.cell == spec_hier(sample, cell_size, seed, depth as nat, growth as int).0
            &&& fs.dist as int == spec_hier(sample, cell_size, seed, depth as nat, growth as int).1
            &&& fs.dist < MAX_DISTANCE
            &&& sample.x - 4 * cell_size.x < cell_size.x * fs.cell.x <= sample.x + 2 * cell_size.x
            &&& sample.y - 4 * cell_size.y < cell_size.y * fs.cell.y <= sample.y + 2 * cell_size.y
        },
    decreases depth,
{
    if depth == 0 {
        match worley(sample, cell_size, seed) {
            Ok(fs) => {
                proof {
                    lemma_cell_origin_near(sample, cell_size, seed);
                }
                Ok(FieldSample { cell: fs.cell, dist: 0 })
            },
            Err(e) => {
                proof {
                    assert(false);
                }
                Err(e)
            },
        }
    } else {
        let fx: i64 = floor_div(cell_size.x, growth);
        let fy: i64 = floor_div(cell_size.y, growth);
        proof {
            if fx == 0 || fy == 0 {
                lemma_refined_zero(growth as int, (depth - 1) as nat);
            }
            lemma_div_pos_is_pos(cell_size.x as int, growth as int);
            lemma_div_pos_is_pos(cell_size.y as int, growth as int);
            lemma_div_nonincreasing(cell_size.x as int, growth as int);
            lemma_div_nonincreasing(cell_size.y as int, growth as int);
        }
        if fx == 0 || fy == 0 {
            return Err(NoiseError::CellSizeUnderflow);
        }
        let finer = Vec2i { x: fx, y: fy };
        match hier_rec(sample, finer, seed, depth - 1, growth) {
            Ok(fin) => {
                proof {
                    // A finer cell size is at most half the coarser one.
                    vstd::arithmetic::div_mod::lemma_div_is_ordered_by_denominator(
                        cell_size.x as int,
                        2,
                        growth as int,
                    );
                    vstd::arithmetic::div_mod::lemma_div_is_ordered_by_denominator(
                        cell_size.y as int,
                        2,
                        growth as int,
                    );
                    lemma_base_bounds(cell_size.x as int, 2);
                    lemma_base_bounds(cell_size.y as int, 2);
                    vstd::arithmetic::mul::lemma_mul_is_commutative(
                        fin.cell.x as int,
                        fx as int,
                    );
                    vstd::arithmetic::mul::lemma_mul_is_commutative(
                        fin.cell.y as int,
                        fy as int,
                    );
                }
                let nsx: i64 = fin.cell.x * fx;
                let nsy: i64 = fin.cell.y * fy;
                let ns = Vec2i { x: nsx, y: nsy };
                proof {
                    assert(-MAX_SAMPLE_ABS <= ns.x <= MAX_SAMPLE_ABS && -MAX_SAMPLE_ABS <= ns.y
                        <= MAX_SAMPLE_ABS);
                }
                match worley(ns, cell_size, seed) {
                    Ok(coarse) => {
                        proof {
                            lemma_cell_origin_near(ns, cell_size, seed);
                        }
                        let dist: u64 = blend_distance(coarse.dist, fin.dist);
                        Ok(FieldSample { cell: coarse.cell, dist })
                    },
                    Err(e) => {
                        proof {
                            assert(false);
                        }
                        Err(e)
                    },
                }
            },
            Err(e) => Err(e),
        }
    }
}

/// The origin of the cell a single-level search returns is within a small
/// multiple of the cell size of the sample: the winner is a neighbor of the
/// containing cell, whose origin brackets the sample.
proof fn lemma_cell_origin_near(sample: Vec2i, cell_size: Vec2i, seed: u64)
    requires
        in_search_domain(sample, cell_size),
    ensures
        sample.x - 2 * cell_size.x <= cell_size.x * (spec_worley_cell(sample, cell_size, seed).x
            as int) <= sample.x + cell_size.x,
        sample.y - 2 * cell_size.y <= cell_size.y * (spec_worley_cell(sample, cell_size, seed).y
            as int) <= sample.y + cell_size.y,
{
    lemma_best_cell_near(sample, cell_size, seed, 8);
    lemma_base_in_range(sample, cell_size);
    lemma_base_bounds(sample.x as int, cell_size.x as int);
    lemma_base_bounds(sample.y as int, cell_size.y as int);
    let bx = spec_base_x(sample, cell_size);
    let by = spec_base_y(sample, cell_size);
    let wx = spec_worley_cell(sample, cell_size, seed).x as int;
    let wy = spec_worley_cell(sample, cell_size, seed).y as int;
    assert(sample.x - 2 * cell_size.x <= cell_size.x * wx <= sample.x + cell_size.x)
        by (nonlinear_arith)
        requires
            0 < cell_size.x,
            bx - 1 <= wx <= bx + 1,
            (cell_size.x as int) * bx <= (sample.x as int),
            (sample.x as int) < (cell_size.x as int) * (bx + 1),
    ;
    assert(sample.y - 2 * cell_size.y <= cell_size.y * wy <= sample.y + cell_size.y)
        by (nonlinear_arith)
        requires
            0 < cell_size.y,
            by - 1 <= wy <= by + 1,
            (cell_size.y as int) * by <= (sample.y as int),
            (sample.y as int) < (cell_size.y as int) * (by + 1),
    ;
}

/// Hierarchical Worley field under the continuous-growth policy.
///
/// Validates the domain, then evaluates the recursion finest level first.
/// A non-positive cell size, a growth factor below two, or a depth that
/// refines some level's cells to nothing is a fail-fast domain error; no
/// degenerate field is ever produced.
pub fn hierarchical_worley(
    sample: Vec2i,
    cell_size: Vec2i,
    seed: u64,
    depth: usize,
    growth: i64,
) -> (r: Result<FieldSample, NoiseError>)
    requires
        -MAX_FIELD_SAMPLE_ABS <= sample.x <= MAX_FIELD_SAMPLE_ABS,
        -MAX_FIELD_SAMPLE_ABS <= sample.y <= MAX_FIELD_SAMPLE_ABS,
        cell_size.x <= MAX_CELL_SIZE,
        cell_size.y <= MAX_CELL_SIZE,
    ensures
        r is Err <==> (cell_size.x <= 0 || cell_size.y <= 0 || growth < 2 || spec_refined(
            cell_size.x as int,
            growth as int,
            depth as nat,
        ) <= 0 || spec_refined(cell_size.y as int, growth as int, depth as nat) <= 0),
        r matches Err(e) ==> e == if cell_size.x <= 0 || cell_size.y <= 0 {
            NoiseError::NonPositiveCellSize
        } else if growth < 2 {
            NoiseError::GrowthTooSmall
        } else {
            NoiseError::CellSizeUnderflow
        },
        r matches Ok(fs) ==> {
            &&& fs.cell == spec_hier(sample, cell_size, seed, depth as nat, growth as int).0
            &&& fs.dist as int == spec_hier(sample, cell_size, seed, depth as nat, growth as int).1
            &&& fs.dist < MAX_DISTANCE
        },
{
    if cell_size.x <= 0 || cell_size.y <= 0 {
        return Err(NoiseError::NonPositiveCellSize);
    }
    if growth < 2 {
        return Err(NoiseError::GrowthTooSmall);
    }
    hier_rec(sample, cell_size, seed, depth, growth)
}

} // verus!
