//! The full separation pipeline.
//!
//! Given the primaries, the white point and the output grid — all already
//! converted to the comparison color space — this enumerates the achievable
//! mixtures, indexes them, and maps every grid cell to its nearest mixture.
//! Every fatal condition is detected here, before any mapping work starts;
//! on success the result pins the output channels exactly.

use vstd::prelude::*;
use vstd::arithmetic::power::pow;

use crate::candidates::{
    cand_models, cand_wf, generate_candidates, lemma_candidates_wf, spec_candidates,
};
use crate::config::{InkLimit, SeparationError};
use crate::mapper::{map_grid, set_wf, spec_channels, ChannelSet};
use crate::spatial::{coord_bounded, coords_of, SeparationIndex};
use crate::vector::Vector3;

verus! {

/// Whether some candidate's mixed color lies outside the coordinate range
/// the spatial index accepts.
pub open spec fn some_candidate_out_of_range(cs: Seq<(Vector3, Seq<i64>)>) -> bool {
    exists|i: int| 0 <= i < cs.len() && !coord_bounded(coords_of((#[trigger] cs[i]).0))
}

/// Whether some query color lies outside the coordinate range the spatial
/// index accepts.
pub open spec fn some_query_out_of_range(qs: Seq<Vector3>) -> bool {
    exists|i: int| 0 <= i < qs.len() && !coord_bounded(coords_of(#[trigger] qs[i]))
}

/// Runs candidate generation, index construction and the grid mapping in
/// order. `primaries`, `white` and `grid` are expected in the comparison
/// space; `resolution` is the per-axis fraction count (see
/// [`crate::candidates::resolution_for`]); `workers` is the number of
/// contiguous grid slices mapped independently, which does not affect the
/// result. All fatal conditions are reported before any mapping starts.
pub fn separate(
    primaries: &Vec<Vector3>,
    white: Vector3,
    grid: &Vec<Vector3>,
    resolution: usize,
    limit: InkLimit,
    workers: usize,
) -> (out: Result<(SeparationIndex, ChannelSet), SeparationError>)
    requires
        1 <= resolution,
        1 <= workers,
        2 * primaries@.len() + 1 <= usize::MAX as int,
    ensures
        match out {
            Ok(res) => {
                &&& res.0.wf()
                &&& cand_models(res.0.candidates@) == spec_candidates(
                    primaries@,
                    white,
                    resolution as int,
                    limit,
                )
                &&& res.1@ == spec_channels(res.0, primaries@, white, grid@)
            },
            Err(e) => {
                let cs = spec_candidates(primaries@, white, resolution as int, limit);
                let n = primaries@.len();
                let cap = pow(resolution as int, n as nat);
                &&& (e == SeparationError::NoPrimaries <==> n == 0)
                &&& (e == SeparationError::CandidateCountOverflow <==> (n >= 1 && cap
                    > usize::MAX as int))
                &&& (e == SeparationError::EmptyCandidateSet <==> (n >= 1 && cap
                    <= usize::MAX as int && cs.len() == 0))
                &&& (e == SeparationError::ColorOutOfRange <==> (n >= 1 && cap
                    <= usize::MAX as int && cs.len() >= 1 && (some_candidate_out_of_range(cs) || (
                !some_candidate_out_of_range(cs) && some_query_out_of_range(grid@)))))
                &&& (n == 0 || cap > usize::MAX as int || cs.len() == 0
                    || some_candidate_out_of_range(cs) || some_query_out_of_range(grid@))
            },
        },
{
    let ghost cs = spec_candidates(primaries@, white, resolution as int, limit);
    let cands = match generate_candidates(primaries, white, resolution, limit) {
        Ok(c) => c,
        Err(e) => {
            return Err(e);
        },
    };
    let ghost cands0 = cands@;
    proof {
        assert forall|i: int| 0 <= i < cands0.len() implies coords_of(
            #[trigger] cands0[i].color,
        ) == coords_of(cs[i].0) by {
            assert(cand_models(cands0)[i] == cands0[i]@);
        }
    }
    let si = match SeparationIndex::build(cands) {
        Ok(si) => si,
        Err(e) => {
            proof {
                if e == SeparationError::ColorOutOfRange {
                    let i = choose|i: int|
                        0 <= i < cands0.len() && !coord_bounded(
                            coords_of(#[trigger] cands0[i].color),
                        );
                    assert(!coord_bounded(coords_of(cs[i].0)));
                }
            }
            return Err(e);
        },
    };
    proof {
        if some_candidate_out_of_range(cs) {
            let i = choose|i: int|
                0 <= i < cs.len() && !coord_bounded(coords_of((#[trigger] cs[i]).0));
            assert(coord_bounded(coords_of(si.candidates@[i].color)));
            assert(coords_of(si.candidates@[i].color) == coords_of(cs[i].0));
            assert(false);
        }
    }
    let glen = grid.len();
    let mut gi: usize = 0;
    while gi < glen
        invariant
            glen == grid@.len(),
            gi <= glen,
            forall|t: int| 0 <= t < gi ==> coord_bounded(coords_of(#[trigger] grid@[t])),
            cand_models(si.candidates@) == cs,
            si.candidates@.len() >= 1,
            !some_candidate_out_of_range(cs),
            cs == spec_candidates(primaries@, white, resolution as int, limit),
            primaries@.len() >= 1,
            pow(resolution as int, primaries@.len() as nat) <= usize::MAX as int,
        decreases glen - gi,
    {
        let g = &grid[gi];
        if g.x < -crate::spatial::COORD_BOUND || g.x > crate::spatial::COORD_BOUND || g.y
            < -crate::spatial::COORD_BOUND || g.y > crate::spatial::COORD_BOUND || g.z
            < -crate::spatial::COORD_BOUND || g.z > crate::spatial::COORD_BOUND {
            proof {
                assert(!coord_bounded(coords_of(grid@[gi as int])));
                assert(some_query_out_of_range(grid@));
                assert(cs.len() == cand_models(si.candidates@).len());
                assert(cs.len() >= 1);
            }
            return Err(SeparationError::ColorOutOfRange);
        }
        gi += 1;
    }
    proof {
        assert forall|i: int| 0 <= i < si.candidates@.len() implies cand_wf(
            #[trigger] si.candidates@[i]@,
            primaries@.len(),
        ) by {
            lemma_candidates_wf(
                primaries@,
                white,
                resolution as int,
                limit,
                pow(resolution as int, primaries@.len() as nat) as nat,
                i,
            );
            assert(cand_models(si.candidates@)[i] == si.candidates@[i]@);
        }
        assert(set_wf(si.candidates@, primaries@.len()));
    }
    let channels = map_grid(&si, grid, primaries, white, workers);
    Ok((si, channels))
}

} // verus!
