//! The spatial index, the grid, the worker partitioning and the mapper.

use separations::candidates::{generate_candidates, Candidate};
use separations::config::{InkLimit, SeparationError};
use separations::engine::separate;
use separations::grid::generate_grid;
use separations::mapper::{map_grid, map_grid_checked, worker_range};
use separations::spatial::SeparationIndex;
use separations::vector::{Vector3, FX_ONE};

fn white() -> Vector3 {
    Vector3::new(FX_ONE, FX_ONE, FX_ONE)
}

fn cand(color: Vector3, fractions: Vec<i64>) -> Candidate {
    Candidate { color, fractions }
}

/// An empty candidate set is rejected before any lookup could run.
#[test]
fn build_rejects_empty() {
    match SeparationIndex::build(Vec::new()) {
        Err(e) => assert_eq!(e, SeparationError::EmptyCandidateSet),
        Ok(_) => panic!("an empty candidate set must be rejected"),
    }
}

/// A candidate color beyond the index's coordinate range is rejected.
#[test]
fn build_rejects_out_of_range() {
    let cands = vec![cand(Vector3::new(i64::MAX, 0, 0), vec![0])];
    match SeparationIndex::build(cands) {
        Err(e) => assert_eq!(e, SeparationError::ColorOutOfRange),
        Ok(_) => panic!("an out-of-range color must be rejected"),
    }
}

/// The nearest lookup returns the candidate at minimal squared distance.
#[test]
fn nearest_picks_minimum() {
    let cands = vec![
        cand(Vector3::new(0, 0, 0), vec![0]),
        cand(Vector3::new(FX_ONE, FX_ONE, FX_ONE), vec![FX_ONE]),
    ];
    let si = SeparationIndex::build(cands).unwrap();
    assert_eq!(si.nearest(Vector3::new(100, 100, 100)), 0);
    assert_eq!(si.nearest(Vector3::new(FX_ONE - 100, FX_ONE, FX_ONE)), 1);
}

/// An exact tie resolves the same way on every query.
#[test]
fn nearest_tie_deterministic() {
    let cands = vec![
        cand(Vector3::new(0, 0, 0), vec![0]),
        cand(Vector3::new(FX_ONE, 0, 0), vec![FX_ONE]),
    ];
    let si = SeparationIndex::build(cands).unwrap();
    let q = Vector3::new(FX_ONE / 2, 0, 0);
    let first = si.nearest(q);
    for _ in 0..10 {
        assert_eq!(si.nearest(q), first);
    }
}

/// The grid of edge 2 holds the 8 corners in canonical order: red varies
/// fastest, then green, then blue.
#[test]
fn grid_canonical_order() {
    let g = generate_grid(2);
    let f = FX_ONE;
    let expect = vec![
        Vector3::new(0, 0, 0),
        Vector3::new(f, 0, 0),
        Vector3::new(0, f, 0),
        Vector3::new(f, f, 0),
        Vector3::new(0, 0, f),
        Vector3::new(f, 0, f),
        Vector3::new(0, f, f),
        Vector3::new(f, f, f),
    ];
    assert_eq!(g, expect);
}

/// Grid components are evenly spaced over [0, 1].
#[test]
fn grid_even_spacing() {
    let g = generate_grid(3);
    assert_eq!(g.len(), 27);
    // Cell 5 = red index 2, green index 1, blue index 0.
    assert_eq!(g[5], Vector3::new(FX_ONE, FX_ONE / 2, 0));
    // Cell 26 = the white corner.
    assert_eq!(g[26], Vector3::new(FX_ONE, FX_ONE, FX_ONE));
}

/// Worker slices are contiguous, ordered, cover everything, and differ in
/// size by at most one.
#[test]
fn worker_ranges_partition() {
    for len in [0usize, 1, 5, 10, 64, 1000] {
        for workers in [1usize, 2, 3, 7, 8, 64] {
            let mut prev_end = 0;
            let base = len / workers;
            for w in 0..workers {
                let (s, e) = worker_range(len, workers, w);
                assert_eq!(s, prev_end, "slices must be contiguous");
                assert!(s <= e);
                let size = e - s;
                assert!(size == base || size == base + 1, "slice sizes differ by more than one");
                prev_end = e;
            }
            assert_eq!(prev_end, len, "slices must cover the whole grid");
        }
    }
    assert_eq!(worker_range(10, 3, 0), (0, 3));
    assert_eq!(worker_range(10, 3, 1), (3, 6));
    assert_eq!(worker_range(10, 3, 2), (6, 10));
}

/// The checked mapper rejects candidates whose fraction count does not
/// match the primaries, and queries outside the index's coordinate range.
#[test]
fn checked_mapper_rejects_bad_data() {
    let w = white();
    let si = SeparationIndex::build(vec![cand(Vector3::new(0, 0, 0), vec![0])]).unwrap();
    let queries = vec![Vector3::new(0, 0, 0)];
    // Two primaries, but the candidate holds one fraction.
    let two = vec![Vector3::new(FX_ONE, 0, 0), Vector3::new(0, FX_ONE, 0)];
    match map_grid_checked(&si, &queries, &two, w, 1) {
        Err(e) => assert_eq!(e, SeparationError::PrimaryCountMismatch),
        Ok(_) => panic!("a fraction-count mismatch must be rejected"),
    }
    // A query beyond the coordinate range.
    let one = vec![Vector3::new(FX_ONE, 0, 0)];
    let far = vec![Vector3::new(i64::MAX, 0, 0)];
    match map_grid_checked(&si, &far, &one, w, 1) {
        Err(e) => assert_eq!(e, SeparationError::ColorOutOfRange),
        Ok(_) => panic!("an out-of-range query must be rejected"),
    }
    // Well-formed data passes through to the mapper.
    let cs = map_grid_checked(&si, &queries, &one, w, 1).unwrap();
    assert_eq!(cs.channels.len(), 3);
    assert_eq!(cs.channels[0], vec![Vector3::new(0, 0, 0)]);
}

/// The worker count is not observable in the mapping output.
#[test]
fn worker_count_invariant() {
    let primaries = vec![
        Vector3::new(FX_ONE / 3, FX_ONE / 2, FX_ONE),
        Vector3::new(FX_ONE, FX_ONE / 4, FX_ONE / 5),
    ];
    let w = white();
    let cands = generate_candidates(&primaries, w, 3, InkLimit::Unbounded).unwrap();
    let si = SeparationIndex::build(cands).unwrap();
    let grid = generate_grid(3);
    let one = map_grid(&si, &grid, &primaries, w, 1);
    let two = map_grid(&si, &grid, &primaries, w, 2);
    let five = map_grid(&si, &grid, &primaries, w, 5);
    let many = map_grid(&si, &grid, &primaries, w, 27);
    assert_eq!(one.channels, two.channels);
    assert_eq!(one.channels, five.channels);
    assert_eq!(one.channels, many.channels);
}

/// One primary, grid edge 2, target 1: eight cells, each mapped to the
/// single achievable candidate, the full blend of that primary.
#[test]
fn single_candidate_scenario() {
    let p = Vector3::new(FX_ONE / 2, FX_ONE / 3, FX_ONE / 4);
    let primaries = vec![p];
    let w = white();
    let grid = generate_grid(2);
    let (si, cs) = separate(&primaries, w, &grid, 1, InkLimit::Unbounded, 2).unwrap();
    assert_eq!(si.len(), 1);
    assert_eq!(cs.channels.len(), 3);
    for ch in &cs.channels {
        assert_eq!(ch.len(), 8);
    }
    for cell in 0..8 {
        // The secondary and the blend color are the primary itself.
        assert_eq!(cs.channels[0][cell], p);
        assert_eq!(cs.channels[1][cell], p);
        // The mask is the full fraction in all components.
        assert_eq!(cs.channels[2][cell], Vector3::new(FX_ONE, FX_ONE, FX_ONE));
    }
}
