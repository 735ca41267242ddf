//! Candidate generation: resolution choice, enumeration order, ink-limit
//! pruning, mixing, and determinism.

use separations::candidates::{generate_candidates, resolution_for, Candidate};
use separations::config::{InkLimit, SeparationError};
use separations::vector::{Vector3, FX_ONE};

fn white() -> Vector3 {
    Vector3::new(FX_ONE, FX_ONE, FX_ONE)
}

/// The resolution is the smallest r with r^n reaching the target.
#[test]
fn resolution_smallest_root() {
    assert_eq!(resolution_for(3, 1000), 10);
    assert_eq!(resolution_for(3, 1001), 11);
    assert_eq!(resolution_for(1, 7), 7);
    assert_eq!(resolution_for(2, 10), 4);
    assert_eq!(resolution_for(3, 10000), 22);
    assert_eq!(resolution_for(1, 1), 1);
    assert_eq!(resolution_for(5, 1), 1);
    assert_eq!(resolution_for(2, 9), 3);
}

/// One primary at resolution 2: the zero-fraction candidate is white, the
/// full-fraction candidate is exactly the primary.
#[test]
fn two_fraction_mixing() {
    let p = Vector3::new(FX_ONE / 2, FX_ONE / 4, FX_ONE);
    let primaries = vec![p];
    let cands = generate_candidates(&primaries, white(), 2, InkLimit::Unbounded).unwrap();
    assert_eq!(cands.len(), 2);
    assert_eq!(cands[0].color, white());
    assert_eq!(cands[0].fractions, vec![0]);
    assert_eq!(cands[1].color, p);
    assert_eq!(cands[1].fractions, vec![FX_ONE]);
}

/// Resolution 3 spaces the fractions evenly: 0, 1/2, 1.
#[test]
fn fraction_spacing() {
    let primaries = vec![Vector3::new(FX_ONE / 2, FX_ONE / 2, FX_ONE / 2)];
    let cands = generate_candidates(&primaries, white(), 3, InkLimit::Unbounded).unwrap();
    assert_eq!(cands.len(), 3);
    assert_eq!(cands[0].fractions, vec![0]);
    assert_eq!(cands[1].fractions, vec![FX_ONE / 2]);
    assert_eq!(cands[2].fractions, vec![FX_ONE]);
}

/// Combination order is a mixed-radix counter: primary 0 is the fastest
/// digit.
#[test]
fn enumeration_order() {
    let primaries = vec![
        Vector3::new(FX_ONE, 0, 0),
        Vector3::new(0, FX_ONE, 0),
    ];
    let cands = generate_candidates(&primaries, white(), 2, InkLimit::Unbounded).unwrap();
    assert_eq!(cands.len(), 4);
    assert_eq!(cands[0].fractions, vec![0, 0]);
    assert_eq!(cands[1].fractions, vec![FX_ONE, 0]);
    assert_eq!(cands[2].fractions, vec![0, FX_ONE]);
    assert_eq!(cands[3].fractions, vec![FX_ONE, FX_ONE]);
}

/// An ink limit of zero with one primary keeps only the all-zero fraction.
#[test]
fn zero_limit_single_primary() {
    let primaries = vec![Vector3::new(FX_ONE / 2, FX_ONE / 2, FX_ONE / 2)];
    let cands = generate_candidates(&primaries, white(), 2, InkLimit::Scaled(0)).unwrap();
    assert_eq!(cands.len(), 1);
    assert_eq!(cands[0].fractions, vec![0]);
    assert_eq!(cands[0].color, white());
}

/// A unit ink limit with two primaries at resolution 2 prunes only the
/// both-full combination.
#[test]
fn unit_limit_two_primaries() {
    let primaries = vec![
        Vector3::new(FX_ONE, 0, 0),
        Vector3::new(0, FX_ONE, 0),
    ];
    // Denominator is 1, so the scaled limit equals the real limit.
    let cands = generate_candidates(&primaries, white(), 2, InkLimit::Scaled(1)).unwrap();
    assert_eq!(cands.len(), 3);
    assert_eq!(cands[0].fractions, vec![0, 0]);
    assert_eq!(cands[1].fractions, vec![FX_ONE, 0]);
    assert_eq!(cands[2].fractions, vec![0, FX_ONE]);
}

/// Every surviving candidate's fraction sum stays within the limit.
#[test]
fn limit_respected() {
    let primaries = vec![
        Vector3::new(FX_ONE, 0, 0),
        Vector3::new(0, FX_ONE, 0),
        Vector3::new(0, 0, FX_ONE),
    ];
    // Resolution 10 (denominator 9) with a real limit of 1.0: scaled 9.
    let cands = generate_candidates(&primaries, white(), 10, InkLimit::Scaled(9)).unwrap();
    assert!(!cands.is_empty());
    for c in &cands {
        let total: i64 = c.fractions.iter().sum();
        assert!(total <= FX_ONE, "fraction sum {} exceeds the unit limit", total);
    }
}

/// No primaries is a configuration error.
#[test]
fn no_primaries() {
    let primaries: Vec<Vector3> = Vec::new();
    let out = generate_candidates(&primaries, white(), 2, InkLimit::Unbounded);
    assert_eq!(out.unwrap_err(), SeparationError::NoPrimaries);
}

/// A candidate space too large for the machine is a configuration error.
#[test]
fn candidate_count_overflow() {
    let primaries = vec![
        Vector3::new(FX_ONE, 0, 0),
        Vector3::new(0, FX_ONE, 0),
    ];
    let out = generate_candidates(&primaries, white(), usize::MAX, InkLimit::Unbounded);
    assert_eq!(out.unwrap_err(), SeparationError::CandidateCountOverflow);
}

/// Re-running generation on identical inputs gives identical candidates.
#[test]
fn generation_deterministic() {
    let primaries = vec![
        Vector3::new(FX_ONE / 3, FX_ONE / 5, FX_ONE / 7),
        Vector3::new(FX_ONE / 2, FX_ONE, FX_ONE / 9),
    ];
    let a = generate_candidates(&primaries, white(), 7, InkLimit::Scaled(8)).unwrap();
    let b = generate_candidates(&primaries, white(), 7, InkLimit::Scaled(8)).unwrap();
    assert_eq!(a.len(), b.len());
    for (ca, cb) in a.iter().zip(b.iter()) {
        assert_eq!(ca.color, cb.color);
        assert_eq!(ca.fractions, cb.fractions);
    }
}

/// A candidate can be rebuilt by hand and compared field by field.
#[test]
fn candidate_fields() {
    let c = Candidate { color: Vector3::new(1, 2, 3), fractions: vec![4, 5] };
    assert_eq!(c.color, Vector3::new(1, 2, 3));
    assert_eq!(c.fractions, vec![4, 5]);
}
