//! The spatial index over the candidate set.
//!
//! The candidates are bulk-loaded once into an r-tree keyed by their mixed
//! color's three fixed-point coordinates, with the candidate's position in
//! the generation order as its payload. After construction the index is
//! read-only and serves exact nearest-neighbor queries by squared Euclidean
//! distance in the comparison color space. A tie between equally distant
//! candidates is resolved by the tree's traversal order, which is fixed for
//! a fixed candidate set.

use vstd::prelude::*;
use vstd::multiset::Multiset;
use vstd::pervasive::unreached;

use crate::candidates::Candidate;
use crate::config::SeparationError;
use crate::vector::Vector3;

verus! {

/// An r-tree of three-coordinate integer points, each carrying a
/// candidate's position as its payload. The tree itself is opaque; what it
/// holds is named by [`tree_entries`] and every access goes through the
/// trusted functions below.
#[verifier::external_body]
pub struct CandTree {
    tree: rstar::RTree<rstar::primitives::GeomWithData<[i64; 3], u64>>,
}

/// The largest coordinate magnitude the index accepts. It keeps every
/// squared distance the tree computes within the range of its signed 64-bit
/// scalars: components differ by at most `2^30`, so a squared distance is at
/// most `3 * 2^60`.
pub const COORD_BOUND: i64 = 0x2000_0000;

/// Whether a coordinate triple is within the range the index accepts.
pub open spec fn coord_bounded(c: (i64, i64, i64)) -> bool {
    &&& -COORD_BOUND <= c.0 <= COORD_BOUND
    &&& -COORD_BOUND <= c.1 <= COORD_BOUND
    &&& -COORD_BOUND <= c.2 <= COORD_BOUND
}

/// The coordinate triple of a vector.
pub open spec fn coords_of(v: Vector3) -> (i64, i64, i64) {
    (v.x, v.y, v.z)
}

/// Squared Euclidean distance between two coordinate triples.
pub open spec fn dist2(a: (i64, i64, i64), b: (i64, i64, i64)) -> int {
    (a.0 - b.0) * (a.0 - b.0) + (a.1 - b.1) * (a.1 - b.1) + (a.2 - b.2) * (a.2 - b.2)
}

/// What the tree holds: the multiset of its (point, payload) elements.
pub uninterp spec fn tree_entries(t: &CandTree) -> Multiset<((i64, i64, i64), u64)>;

/// What a nearest-neighbor query returns: a function of the tree and the
/// query point alone.
pub uninterp spec fn tree_nearest(t: &CandTree, q: (i64, i64, i64)) -> Option<
    ((i64, i64, i64), u64),
>;

/// Relies on rstar::RTree::bulk_load: builds an r-tree holding exactly the
/// given elements.
#[verifier::external_body]
fn tree_bulk_load(items: Vec<((i64, i64, i64), u64)>) -> (t: CandTree)
    ensures
        tree_entries(&t) == items@.to_multiset(),
{
    CandTree {
        tree: rstar::RTree::bulk_load(
            items.into_iter().map(
                |e: ((i64, i64, i64), u64)| rstar::primitives::GeomWithData::new(
                    [e.0.0, e.0.1, e.0.2],
                    e.1,
                ),
            ).collect(),
        ),
    }
}

/// Relies on rstar::RTree::nearest_neighbor: returns an element whose
/// squared Euclidean distance to the query point is minimal over the whole
/// tree, or nothing when the tree is empty. rstar computes distances with
/// the scalars' own arithmetic, so the coordinates must stay within
/// [`COORD_BOUND`]; the traversal is deterministic, so the result is a
/// function of the tree and the query point.
#[verifier::external_body]
fn tree_nearest_neighbor(t: &CandTree, q: (i64, i64, i64)) -> (r: Option<((i64, i64, i64), u64)>)
    requires
        coord_bounded(q),
        forall|e: ((i64, i64, i64), u64)| tree_entries(t).contains(e) ==> coord_bounded(e.0),
    ensures
        r == tree_nearest(t, q),
        r is Some <==> tree_entries(t).len() > 0,
        match r {
            Some(e) => tree_entries(t).contains(e) && forall|o: ((i64, i64, i64), u64)|
                tree_entries(t).contains(o) ==> dist2(q, e.0) <= dist2(q, o.0),
            None => true,
        },
{
    t.tree.nearest_neighbor([q.0, q.1, q.2]).map(
        |g: &rstar::primitives::GeomWithData<[i64; 3], u64>| (
            (g.geom()[0], g.geom()[1], g.geom()[2]),
            g.data,
        ),
    )
}

/// The index entries of a candidate sequence: each candidate's color
/// coordinates paired with its position.
pub open spec fn entries_of(cands: Seq<Candidate>) -> Seq<((i64, i64, i64), u64)> {
    Seq::new(cands.len(), |i: int| (coords_of(cands[i].color), i as u64))
}

/// An element of the tree names a real candidate: its payload is the
/// candidate's position and its point is that candidate's color.
proof fn lemma_entry_lookup(cands: Seq<Candidate>, e: ((i64, i64, i64), u64))
    requires
        cands.len() <= u64::MAX,
        entries_of(cands).to_multiset().contains(e),
    ensures
        0 <= e.1 < cands.len(),
        coords_of(cands[e.1 as int].color) == e.0,
{
    let s = entries_of(cands);
    s.to_multiset_ensures();
    assert(s.contains(e));
    let j = choose|j: int| 0 <= j < s.len() && s[j] == e;
    assert(s[j].1 == j as u64);
}

/// The immutable spatial index: the candidate set and the r-tree over it.
pub struct SeparationIndex {
    /// The indexed candidates, in generation order.
    pub candidates: Vec<Candidate>,
    /// The r-tree over the candidates' color coordinates.
    pub tree: CandTree,
}

impl SeparationIndex {
    /// Well-formedness: the tree holds exactly one entry per candidate,
    /// keyed by its color and carrying its position, and every coordinate is
    /// within the range the tree accepts; the set is never empty.
    pub open spec fn wf(self) -> bool {
        &&& tree_entries(&self.tree) == entries_of(self.candidates@).to_multiset()
        &&& self.candidates@.len() >= 1
        &&& forall|i: int|
            0 <= i < self.candidates@.len() ==> coord_bounded(
                coords_of(#[trigger] self.candidates@[i].color),
            )
    }

    /// The number of indexed candidates.
    pub fn len(&self) -> (n: usize)
        ensures
            n == self.candidates@.len(),
    {
        self.candidates.len()
    }

    /// Bulk-loads the index over the given candidate set. Fails fast, before
    /// any lookup could run, when the set is empty (nothing could ever be
    /// matched) or when a candidate color leaves the coordinate range the
    /// tree accepts.
    pub fn build(candidates: Vec<Candidate>) -> (out: Result<SeparationIndex, SeparationError>)
        ensures
            match out {
                Ok(si) => {
                    &&& si.wf()
                    &&& si.candidates@ == candidates@
                    &&& candidates@.len() >= 1
                    &&& forall|i: int|
                        0 <= i < candidates@.len() ==> coord_bounded(
                            coords_of(#[trigger] candidates@[i].color),
                        )
                },
                Err(e) => {
                    &&& (candidates@.len() == 0 || exists|i: int|
                        0 <= i < candidates@.len() && !coord_bounded(
                            coords_of(#[trigger] candidates@[i].color),
                        ))
                    &&& (e == SeparationError::EmptyCandidateSet <==> candidates@.len() == 0)
                    &&& (e == SeparationError::ColorOutOfRange <==> (candidates@.len() >= 1
                        && exists|i: int|
                        0 <= i < candidates@.len() && !coord_bounded(
                            coords_of(#[trigger] candidates@[i].color),
                        )))
                },
            },
    {
        let n = candidates.len();
        if n == 0 {
            return Err(SeparationError::EmptyCandidateSet);
        }
        let mut items: Vec<((i64, i64, i64), u64)> = Vec::new();
        let mut i: usize = 0;
        while i < n
            invariant
                n == candidates@.len(),
                i <= n,
                items@ == entries_of(candidates@).take(i as int),
                forall|t: int|
                    0 <= t < i ==> coord_bounded(coords_of(#[trigger] candidates@[t].color)),
            decreases n - i,
        {
            let c = &candidates[i].color;
            if c.x < -COORD_BOUND || c.x > COORD_BOUND || c.y < -COORD_BOUND || c.y > COORD_BOUND
                || c.z < -COORD_BOUND || c.z > COORD_BOUND {
                return Err(SeparationError::ColorOutOfRange);
            }
            items.push(((c.x, c.y, c.z), i as u64));
            proof {
                assert(items@ =~= entries_of(candidates@).take(i + 1));
            }
            i += 1;
        }
        proof {
            assert(items@ =~= entries_of(candidates@));
        }
        let tree = tree_bulk_load(items);
        Ok(SeparationIndex { candidates, tree })
    }

    /// The position of the candidate a nearest-neighbor query for `q`
    /// returns: a function of the index and the query point.
    pub open spec fn spec_nearest(self, q: (i64, i64, i64)) -> int {
        match tree_nearest(&self.tree, q) {
            Some(e) => e.1 as int,
            None => 0,
        }
    }

    /// The position of the candidate whose mixed color is nearest to `q` by
    /// squared Euclidean distance, ties resolved by the tree's traversal
    /// order. Deterministic: the result is a function of the index and the
    /// query point.
    pub fn nearest(&self, q: Vector3) -> (idx: usize)
        requires
            self.wf(),
            coord_bounded(coords_of(q)),
        ensures
            idx < self.candidates@.len(),
            idx as int == self.spec_nearest(coords_of(q)),
            forall|j: int|
                0 <= j < self.candidates@.len() ==> dist2(
                    coords_of(q),
                    coords_of(self.candidates@[idx as int].color),
                ) <= dist2(coords_of(q), coords_of(#[trigger] self.candidates@[j].color)),
    {
        let n = self.candidates.len();
        proof {
            assert forall|e: ((i64, i64, i64), u64)|
                tree_entries(&self.tree).contains(e) implies coord_bounded(e.0) by {
                lemma_entry_lookup(self.candidates@, e);
            }
        }
        let r = tree_nearest_neighbor(&self.tree, (q.x, q.y, q.z));
        match r {
            Some(e) => {
                proof {
                    lemma_entry_lookup(self.candidates@, e);
                    let s = entries_of(self.candidates@);
                    s.to_multiset_ensures();
                    assert forall|j: int|
                        0 <= j < self.candidates@.len() implies dist2(
                        coords_of(q),
                        coords_of(self.candidates@[e.1 as int].color),
                    ) <= dist2(coords_of(q), coords_of(#[trigger] self.candidates@[j].color)) by {
                        assert(s.contains(s[j]));
                        assert(tree_entries(&self.tree).contains(s[j]));
                        assert(s[j].0 == coords_of(self.candidates@[j].color));
                    }
                }
                e.1 as usize
            },
            None => {
                proof {
                    let s = entries_of(self.candidates@);
                    s.to_multiset_ensures();
                    assert(s.len() >= 1);
                    assert(false);
                }
                unreached()
            },
        }
    }
}

} // verus!
