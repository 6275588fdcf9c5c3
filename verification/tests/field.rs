//! End-to-end behaviour of the noise core: determinism, hash quality,
//! center ranges, neighborhood sufficiency, distances and both composition
//! policies.

use worley_field::grid::{grid_worley, hierarchical_worley_doubling, GRID_ONE};
use worley_field::hash::{cell_center, cell_hash, CENTER_ONE};
use worley_field::hier::{blend_distance, hierarchical_worley};
use worley_field::math::{floor_div, isqrt_u128};
use worley_field::types::{Cell2, NoiseError, Vec2i};
use worley_field::worley::{worley, MAX_DISTANCE};

/// A small deterministic pseudo-random stream for fixtures.
fn lcg(state: &mut u64) -> u64 {
    *state = state
        .wrapping_mul(6364136223846793005)
        .wrapping_add(1442695040888963407);
    *state >> 16
}

/// World-space center of a cell along one axis, mirroring the library's
/// fixed-point formula independently.
fn ref_center_axis(n: i64, c: i64, num: u32) -> i128 {
    (n as i128) * (c as i128) + ((num as u128 * c as u128) >> 32) as i128
}

/// Squared distance from a sample to the center of a given cell.
fn ref_d2(sample: Vec2i, cell_size: Vec2i, seed: u64, cx: i64, cy: i64) -> i128 {
    let cf = cell_center(Cell2 { x: cx, y: cy }, seed);
    let wx = ref_center_axis(cx, cell_size.x, cf.x);
    let wy = ref_center_axis(cy, cell_size.y, cf.y);
    let dx = wx - sample.x as i128;
    let dy = wy - sample.y as i128;
    dx * dx + dy * dy
}

#[test]
fn determinism_repeated_calls() {
    let cell = Cell2 { x: -37, y: 1009 };
    assert_eq!(cell_hash(cell, 99), cell_hash(cell, 99));
    assert_eq!(cell_center(cell, 99), cell_center(cell, 99));
    let s = Vec2i { x: 12345, y: -678 };
    let cs = Vec2i { x: 256, y: 256 };
    let a = hierarchical_worley(s, cs, 7, 3, 2).unwrap();
    let b = hierarchical_worley(s, cs, 7, 3, 2).unwrap();
    assert_eq!(a, b);
    let sn = Vec2i { x: 1000, y: 2000 };
    let cnt = Cell2 { x: 4, y: 4 };
    let c = hierarchical_worley_doubling(sn, cnt, 7, 2).unwrap();
    let d = hierarchical_worley_doubling(sn, cnt, 7, 2).unwrap();
    assert_eq!(c, d);
}

#[test]
fn avalanche_half_the_bits_flip_on_average() {
    let seed = 0xdead_beef;
    let mut total: u64 = 0;
    let n = 4096i64;
    for i in 0..n {
        let a = cell_hash(Cell2 { x: i - 2048, y: 3 * i }, seed);
        let b = cell_hash(
            Cell2 {
                x: i - 2048 + 1,
                y: 3 * i,
            },
            seed,
        );
        total += (a ^ b).count_ones() as u64;
    }
    let avg_milli = total * 1000 / n as u64;
    // Roughly half of 64 bits: the mean sits well inside [28, 36].
    assert!(avg_milli > 28_000 && avg_milli < 36_000, "avg {}", avg_milli);
}

#[test]
fn center_components_lie_in_unit_range() {
    let mut st = 5u64;
    for _ in 0..200 {
        let cell = Cell2 {
            x: (lcg(&mut st) as i64) - (1 << 40),
            y: (lcg(&mut st) as i64) - (1 << 30),
        };
        let seed = lcg(&mut st);
        let c = cell_center(cell, seed);
        assert!((c.x as u64) < CENTER_ONE);
        assert!((c.y as u64) < CENTER_ONE);
    }
}

#[test]
fn neighborhood_search_matches_wider_brute_force() {
    let cs = Vec2i { x: 173, y: 211 };
    let mut st = 11u64;
    for seed in [1u64, 7, 42, 10_000] {
        for _ in 0..50 {
            let s = Vec2i {
                x: (lcg(&mut st) % 1_000_000) as i64 - 500_000,
                y: (lcg(&mut st) % 1_000_000) as i64 - 500_000,
            };
            let fs = worley(s, cs, seed).unwrap();
            let bx = floor_div(s.x, cs.x);
            let by = floor_div(s.y, cs.y);
            let mut best: i128 = i128::MAX;
            for ox in -3..=3 {
                for oy in -3..=3 {
                    let d2 = ref_d2(s, cs, seed, bx + ox, by + oy);
                    if d2 < best {
                        best = d2;
                    }
                }
            }
            let d = fs.dist as i128;
            assert!(d * d <= best && best < (d + 1) * (d + 1));
        }
    }
}

#[test]
fn distances_are_non_negative_and_bounded() {
    let mut st = 77u64;
    for _ in 0..100 {
        let s = Vec2i {
            x: (lcg(&mut st) % 2_000_000) as i64 - 1_000_000,
            y: (lcg(&mut st) % 2_000_000) as i64 - 1_000_000,
        };
        let cs = Vec2i {
            x: 1 + (lcg(&mut st) % 1000) as i64,
            y: 1 + (lcg(&mut st) % 1000) as i64,
        };
        let seed = lcg(&mut st);
        let fs = worley(s, cs, seed).unwrap();
        assert!(fs.dist < MAX_DISTANCE);
        let h = hierarchical_worley(s, cs, seed, 2, 3);
        if let Ok(hf) = h {
            assert!(hf.dist < MAX_DISTANCE);
        }
    }
}

#[test]
fn blend_stays_in_convex_range() {
    let cases = [(0u64, 0u64), (100, 0), (0, 100), (40, 60), (7, 7), (1, 2)];
    for (c, f) in cases {
        let b = blend_distance(c, f);
        assert!(b >= c.min(f).saturating_sub(1));
        assert!(b >= 0 && b <= c.max(f));
        assert_eq!(b, (c + 3 * f) / 4);
    }
}

#[test]
fn depth_zero_returns_sentinel_zero_distance() {
    let s = Vec2i { x: 5000, y: 5000 };
    let cs = Vec2i { x: 300, y: 300 };
    let fs = hierarchical_worley(s, cs, 123, 0, 2).unwrap();
    assert_eq!(fs.dist, 0);
    let direct = worley(s, cs, 123).unwrap();
    assert_eq!(fs.cell, direct.cell);
}

#[test]
fn one_level_composition_built_from_public_parts() {
    let s = Vec2i { x: 40_000, y: 25_000 };
    let cs = Vec2i { x: 900, y: 900 };
    let seed = 31u64;
    let growth = 3i64;
    let finer = Vec2i {
        x: cs.x / growth,
        y: cs.y / growth,
    };
    let fin = hierarchical_worley(s, finer, seed, 0, growth).unwrap();
    let ns = Vec2i {
        x: fin.cell.x * finer.x,
        y: fin.cell.y * finer.y,
    };
    let coarse = worley(ns, cs, seed).unwrap();
    let composed = hierarchical_worley(s, cs, seed, 1, growth).unwrap();
    assert_eq!(composed.cell, coarse.cell);
    // Depth one blends the coarse distance with the sentinel zero.
    assert_eq!(composed.dist, coarse.dist / 4);
}

#[test]
fn base_scenario_four_by_four_grid() {
    // One tenth of the unit square, at the square's fixed-point resolution.
    let s = Vec2i { x: 6554, y: 6554 };
    let cnt = Cell2 { x: 4, y: 4 };
    let seed = 10u64;
    let fs = hierarchical_worley_doubling(s, cnt, seed, 0).unwrap();
    assert!(fs.cell.x >= 0 && fs.cell.x < 4);
    assert!(fs.cell.y >= 0 && fs.cell.y < 4);
    // The scaled sample lies in cell (0,0); its clamped neighborhood is
    // {0,1} x {0,1}.  The returned distance is the Euclidean distance to
    // the returned cell's center, in scaled units, and no neighbor is
    // closer.
    let sx = (s.x * cnt.x) as i128;
    let sy = (s.y * cnt.y) as i128;
    let mut best: i128 = i128::MAX;
    let mut best_cell = (0i64, 0i64);
    for nx in 0..2i64 {
        for ny in 0..2i64 {
            let cf = cell_center(Cell2 { x: nx, y: ny }, seed);
            let wx = ref_center_axis(nx, GRID_ONE, cf.x);
            let wy = ref_center_axis(ny, GRID_ONE, cf.y);
            let d2 = (wx - sx) * (wx - sx) + (wy - sy) * (wy - sy);
            if d2 < best {
                best = d2;
                best_cell = (nx, ny);
            }
        }
    }
    assert_eq!((fs.cell.x, fs.cell.y), best_cell);
    let d = fs.dist as i128;
    assert!(d * d <= best && best < (d + 1) * (d + 1));
    let expect = (best as f64).sqrt();
    assert!((fs.dist as f64 - expect).abs() <= 1.0);
    // Pinned once for this hasher: the sample's own cell wins.
    assert_eq!((fs.cell.x, fs.cell.y), (0, 0));
    assert_eq!(fs.dist, 7184);
}

#[test]
fn doubling_depths_stay_valid_and_decompose() {
    let s = Vec2i { x: 6554, y: 6554 };
    let cnt = Cell2 { x: 4, y: 4 };
    let seed = 10u64;
    let d0 = hierarchical_worley_doubling(s, cnt, seed, 0).unwrap();
    let d2 = hierarchical_worley_doubling(s, cnt, seed, 2).unwrap();
    assert!(d0.cell.x >= 0 && d0.cell.x < 4 && d0.cell.y >= 0 && d0.cell.y < 4);
    assert!(d2.cell.x >= 0 && d2.cell.x < 16 && d2.cell.y >= 0 && d2.cell.y < 16);
    // Each level re-centres within one cell of the doubled finer winner, so
    // the depth-two index maps back to the base index within the slack of
    // the renormalisation chain.
    assert!((d2.cell.x - 4 * d0.cell.x).abs() <= 3);
    assert!((d2.cell.y - 4 * d0.cell.y).abs() <= 3);
    // Pinned once for this hasher.
    assert_eq!((d0.cell.x, d0.cell.y, d0.dist), (0, 0, 7184));
    assert_eq!((d2.cell.x, d2.cell.y, d2.dist), (0, 0, 34975));
}

#[test]
fn invalid_domains_fail_fast() {
    let s = Vec2i { x: 100, y: 100 };
    assert_eq!(
        worley(s, Vec2i { x: 0, y: 5 }, 1),
        Err(NoiseError::NonPositiveCellSize)
    );
    assert_eq!(
        hierarchical_worley(s, Vec2i { x: -3, y: 5 }, 1, 2, 2),
        Err(NoiseError::NonPositiveCellSize)
    );
    assert_eq!(
        hierarchical_worley(s, Vec2i { x: 10, y: 10 }, 1, 2, 1),
        Err(NoiseError::GrowthTooSmall)
    );
    assert_eq!(
        hierarchical_worley(s, Vec2i { x: 1, y: 1 }, 1, 1, 2),
        Err(NoiseError::CellSizeUnderflow)
    );
    assert_eq!(
        grid_worley(s, Cell2 { x: 0, y: 4 }, 1),
        Err(NoiseError::NonPositiveCellCount)
    );
    assert_eq!(
        hierarchical_worley_doubling(s, Cell2 { x: -1, y: 4 }, 1, 0),
        Err(NoiseError::NonPositiveCellCount)
    );
    assert_eq!(
        hierarchical_worley_doubling(s, Cell2 { x: 4, y: 4 }, 1, 15),
        Err(NoiseError::ResolutionOverflow)
    );
    assert_eq!(
        hierarchical_worley_doubling(s, Cell2 { x: 4, y: 4 }, 1, 40),
        Err(NoiseError::ResolutionOverflow)
    );
}

#[test]
fn integer_helpers_are_exact() {
    assert_eq!(floor_div(7, 2), 3);
    assert_eq!(floor_div(-7, 2), -4);
    assert_eq!(floor_div(-8, 2), -4);
    assert_eq!(floor_div(0, 9), 0);
    assert_eq!(isqrt_u128(0), 0);
    assert_eq!(isqrt_u128(1), 1);
    assert_eq!(isqrt_u128(10), 3);
    assert_eq!(isqrt_u128(16), 4);
    assert_eq!(isqrt_u128(1 << 40), 1 << 20);
    assert_eq!(isqrt_u128((1 << 40) - 1), (1 << 20) - 1);
}
