//! The grid mapper: assigning every grid cell its nearest candidate.
//!
//! The grid, already converted to the comparison space, is split into
//! contiguous slices, one per worker. For each cell a worker looks up the
//! nearest candidate and records the candidate's mixed color (the
//! "secondary" channel), and, per primary, the primary's blend color at the
//! candidate's fraction and a mask holding that fraction in all three
//! components. The per-worker outputs are concatenated in worker order,
//! which reconstructs the canonical grid order exactly; the result is the
//! same for every worker count.

use vstd::prelude::*;
use vstd::arithmetic::div_mod::{
    lemma_div_is_ordered, lemma_div_multiples_vanish, lemma_div_pos_is_pos,
    lemma_fundamental_div_mod, lemma_hoist_over_denominator,
};
use vstd::arithmetic::mul::lemma_mul_inequality;

use crate::candidates::{cand_wf, Candidate};
use crate::config::SeparationError;
use crate::spatial::{coord_bounded, coords_of, SeparationIndex, COORD_BOUND};
use crate::vector::{FX_ONE, v_add, v_scale, Vector3};

verus! {

/// The blend color of a primary at fraction `f`:
/// `f * primary + (1 - f) * white`.
pub open spec fn blend_color(p: Vector3, white: Vector3, f: i64) -> Vector3 {
    v_add(v_scale(p, f as int), v_scale(white, FX_ONE - f))
}

/// The mask color of fraction `f`: the fraction in all three components.
pub open spec fn mask_color(f: i64) -> Vector3 {
    Vector3 { x: f, y: f, z: f }
}

/// Every candidate of the set carries one fraction per primary, each within
/// the fixed-point unit range.
pub open spec fn set_wf(cands: Seq<Candidate>, n: nat) -> bool {
    forall|i: int| 0 <= i < cands.len() ==> cand_wf(#[trigger] cands[i]@, n)
}

/// The output channel `ch` records, for the cell queried by `q`: the
/// matched candidate's mixed color (channel 0), or the blend color of
/// primary `p` (channel `2p + 1`), or the mask of primary `p` (channel
/// `2p + 2`).
pub open spec fn spec_cell(
    si: SeparationIndex,
    primaries: Seq<Vector3>,
    white: Vector3,
    q: Vector3,
    ch: int,
) -> Vector3 {
    let cand = si.candidates@[si.spec_nearest(coords_of(q))];
    if ch == 0 {
        cand.color
    } else if (ch - 1) % 2 == 0 {
        let p = (ch - 1) / 2;
        blend_color(primaries[p], white, cand.fractions@[p])
    } else {
        let p = (ch - 2) / 2;
        mask_color(cand.fractions@[p])
    }
}

/// The full output of the mapping phase: `1 + 2n` channels, each holding
/// one entry per query, in query order.
pub open spec fn spec_channels(
    si: SeparationIndex,
    primaries: Seq<Vector3>,
    white: Vector3,
    queries: Seq<Vector3>,
) -> Seq<Seq<Vector3>> {
    Seq::new(
        1 + 2 * primaries.len(),
        |ch: int| queries.map_values(|q: Vector3| spec_cell(si, primaries, white, q, ch)),
    )
}

/// The ordered output channels of the mapping phase: the secondary channel
/// first, then one blend-color and one mask channel per primary.
#[derive(Debug)]
pub struct ChannelSet {
    /// The channels, each a sequence of cell colors in grid order.
    pub channels: Vec<Vec<Vector3>>,
}

impl View for ChannelSet {
    type V = Seq<Seq<Vector3>>;

    open spec fn view(&self) -> Seq<Seq<Vector3>> {
        self.channels@.map_values(|c: Vec<Vector3>| c@)
    }
}

/// Maps the query cells `start..end`: one worker's share of the grid.
/// The result holds the `1 + 2n` output channels restricted to that slice.
pub fn map_slice(
    si: &SeparationIndex,
    queries: &Vec<Vector3>,
    start: usize,
    end: usize,
    primaries: &Vec<Vector3>,
    white: Vector3,
) -> (out: ChannelSet)
    requires
        si.wf(),
        set_wf(si.candidates@, primaries@.len()),
        start <= end <= queries@.len(),
        forall|i: int| start <= i < end ==> coord_bounded(coords_of(#[trigger] queries@[i])),
        2 * primaries@.len() + 1 <= usize::MAX as int,
    ensures
        out@ == spec_channels(*si, primaries@, white, queries@.subrange(start as int, end as int)),
{
    let n = primaries.len();
    let ghost sub = queries@.subrange(start as int, end as int);
    let mut idxs: Vec<usize> = Vec::new();
    let mut t = start;
    while t < end
        invariant
            si.wf(),
            start <= t <= end <= queries@.len(),
            forall|i: int| start <= i < end ==> coord_bounded(coords_of(#[trigger] queries@[i])),
            idxs@.len() == t - start,
            forall|u: int|
                0 <= u < idxs@.len() ==> #[trigger] idxs@[u] as int == si.spec_nearest(
                    coords_of(queries@[start + u]),
                ) && idxs@[u] < si.candidates@.len(),
        decreases end - t,
    {
        let q = queries[t];
        let id = si.nearest(q);
        idxs.push(id);
        t += 1;
    }
    let m = end - start;
    let mut secondary: Vec<Vector3> = Vec::new();
    let mut u: usize = 0;
    while u < m
        invariant
            si.wf(),
            start + m == end,
            end <= queries@.len(),
            idxs@.len() == m,
            forall|v: int|
                0 <= v < m ==> #[trigger] idxs@[v] as int == si.spec_nearest(
                    coords_of(queries@[start + v]),
                ) && idxs@[v] < si.candidates@.len(),
            u <= m,
            secondary@.len() == u,
            forall|v: int|
                0 <= v < u ==> #[trigger] secondary@[v] == si.candidates@[si.spec_nearest(
                    coords_of(queries@[start + v]),
                )].color,
        decreases m - u,
    {
        let id = idxs[u];
        secondary.push(si.candidates[id].color);
        u += 1;
    }
    let mut channels: Vec<Vec<Vector3>> = Vec::new();
    channels.push(secondary);
    proof {
        assert(channels@.map_values(|c: Vec<Vector3>| c@)[0] =~= sub.map_values(
            |q: Vector3| spec_cell(*si, primaries@, white, q, 0),
        ));
    }
    let mut p: usize = 0;
    while p < n
        invariant
            si.wf(),
            set_wf(si.candidates@, primaries@.len()),
            n == primaries@.len(),
            start + m == end,
            end <= queries@.len(),
            2 * n + 1 <= usize::MAX as int,
            idxs@.len() == m,
            forall|v: int|
                0 <= v < m ==> #[trigger] idxs@[v] as int == si.spec_nearest(
                    coords_of(queries@[start + v]),
                ) && idxs@[v] < si.candidates@.len(),
            sub == queries@.subrange(start as int, end as int),
            p <= n,
            channels@.len() == 1 + 2 * p,
            forall|ch: int|
                0 <= ch < channels@.len() ==> #[trigger] channels@[ch]@ == sub.map_values(
                    |q: Vector3| spec_cell(*si, primaries@, white, q, ch),
                ),
        decreases n - p,
    {
        let mut blend: Vec<Vector3> = Vec::new();
        let mut mask: Vec<Vector3> = Vec::new();
        let mut u: usize = 0;
        while u < m
            invariant
                si.wf(),
                set_wf(si.candidates@, primaries@.len()),
                n == primaries@.len(),
                p < n,
                start + m == end,
                end <= queries@.len(),
                idxs@.len() == m,
                forall|v: int|
                    0 <= v < m ==> #[trigger] idxs@[v] as int == si.spec_nearest(
                        coords_of(queries@[start + v]),
                    ) && idxs@[v] < si.candidates@.len(),
                u <= m,
                blend@.len() == u,
                mask@.len() == u,
                forall|v: int|
                    0 <= v < u ==> #[trigger] blend@[v] == blend_color(
                        primaries@[p as int],
                        white,
                        si.candidates@[si.spec_nearest(coords_of(queries@[start + v]))].fractions@[p as int],
                    ),
                forall|v: int|
                    0 <= v < u ==> #[trigger] mask@[v] == mask_color(
                        si.candidates@[si.spec_nearest(coords_of(queries@[start + v]))].fractions@[p as int],
                    ),
            decreases m - u,
        {
            let id = idxs[u];
            proof {
                assert(cand_wf(si.candidates@[id as int]@, primaries@.len()));
            }
            let f = si.candidates[id].fractions[p];
            blend.push(primaries[p].scale(f).add(white.scale(FX_ONE - f)));
            mask.push(Vector3 { x: f, y: f, z: f });
            u += 1;
        }
        channels.push(blend);
        channels.push(mask);
        proof {
            assert(channels@[2 * p + 1]@ =~= sub.map_values(
                |q: Vector3| spec_cell(*si, primaries@, white, q, 2 * p + 1),
            ));
            assert(channels@[2 * p + 2]@ =~= sub.map_values(
                |q: Vector3| spec_cell(*si, primaries@, white, q, 2 * p + 2),
            ));
        }
        p += 1;
    }
    let out = ChannelSet { channels };
    proof {
        assert(out@ =~= spec_channels(*si, primaries@, white, sub));
    }
    out
}

/// An empty channel set for `n` primaries: `1 + 2n` empty channels.
pub fn empty_channels(n_primaries: usize) -> (cs: ChannelSet)
    requires
        2 * n_primaries + 1 <= usize::MAX as int,
    ensures
        cs@.len() == 1 + 2 * n_primaries,
        forall|ch: int| 0 <= ch < cs@.len() ==> #[trigger] cs@[ch] == Seq::<Vector3>::empty(),
{
    let total = 2 * n_primaries + 1;
    let mut channels: Vec<Vec<Vector3>> = Vec::new();
    let mut i: usize = 0;
    while i < total
        invariant
            i <= total,
            channels@.len() == i,
            forall|ch: int| 0 <= ch < i ==> #[trigger] channels@[ch]@ == Seq::<Vector3>::empty(),
        decreases total - i,
    {
        channels.push(Vec::new());
        i += 1;
    }
    let cs = ChannelSet { channels };
    proof {
        assert forall|ch: int| 0 <= ch < cs@.len() implies #[trigger] cs@[ch]
            == Seq::<Vector3>::empty() by {
            assert(cs@[ch] == cs.channels@[ch]@);
        }
    }
    cs
}

/// Appends one worker's channels onto the accumulated channels, channel by
/// channel: the single merge step of the fork/join phase.
pub fn merge_append(acc: &mut ChannelSet, part: ChannelSet)
    requires
        old(acc)@.len() == part@.len(),
    ensures
        final(acc)@.len() == old(acc)@.len(),
        forall|ch: int|
            0 <= ch < final(acc)@.len() ==> #[trigger] final(acc)@[ch] == old(acc)@[ch]
                + part@[ch],
{
    let total = acc.channels.len();
    let ghost part0 = part@;
    let mut rest = part;
    let mut ch: usize = 0;
    while ch < total
        invariant
            acc.channels@.len() == total,
            rest.channels@.len() == total,
            ch <= total,
            forall|c: int|
                0 <= c < ch ==> #[trigger] acc.channels@[c]@ == old(acc).channels@[c]@
                    + part0[c],
            forall|c: int| ch <= c < total ==> #[trigger] acc.channels@[c]@ == old(
                acc,
            ).channels@[c]@,
            forall|c: int| ch <= c < total ==> #[trigger] rest.channels@[c]@ == part0[c],
        decreases total - ch,
    {
        let src = &mut rest.channels[ch];
        acc.channels[ch].append(src);
        ch += 1;
    }
    proof {
        assert forall|c: int| 0 <= c < acc@.len() implies #[trigger] acc@[c] == old(acc)@[c]
            + part0[c] by {
            assert(acc@[c] == acc.channels@[c]@);
            assert(old(acc)@[c] == old(acc).channels@[c]@);
        }
    }
}

/// The first grid index of worker `w`'s slice when `len` cells are split
/// over `workers` workers.
pub open spec fn slice_start(len: int, workers: int, w: int) -> int {
    (w * len) / workers
}

/// The contiguous index range of worker `w`: `[w * len / workers,
/// (w + 1) * len / workers)`. The slices cover the grid in order without
/// gaps or overlap, and their sizes differ by at most one cell.
pub fn worker_range(len: usize, workers: usize, w: usize) -> (se: (usize, usize))
    requires
        1 <= workers,
        w < workers,
    ensures
        se.0 == slice_start(len as int, workers as int, w as int),
        se.1 == slice_start(len as int, workers as int, w as int + 1),
        se.0 <= se.1 <= len,
        w == 0 ==> se.0 == 0,
        w == workers - 1 ==> se.1 == len,
        len as int / workers as int <= se.1 - se.0 <= len as int / workers as int + 1,
{
    let ghost l = len as int;
    let ghost ws = workers as int;
    let ghost wi = w as int;
    proof {
        assert((w as u128) * (len as u128) <= (workers as u128) * (len as u128)) by (
        nonlinear_arith)
            requires
                (w as u128) < (workers as u128),
        ;
        assert(((w as u128) + 1) * (len as u128) <= (workers as u128) * (len as u128)) by (
        nonlinear_arith)
            requires
                (w as u128) + 1 <= (workers as u128),
        ;
        assert((workers as u128) * (len as u128) < 0x1_0000_0000_0000_0000u128
            * 0x1_0000_0000_0000_0000u128) by (nonlinear_arith)
            requires
                (workers as u128) < 0x1_0000_0000_0000_0000u128,
                (len as u128) < 0x1_0000_0000_0000_0000u128,
        ;
        lemma_mul_inequality(wi, ws, l);
        lemma_mul_inequality(wi + 1, ws, l);
        lemma_div_is_ordered(wi * l, ws * l, ws);
        lemma_div_is_ordered((wi + 1) * l, ws * l, ws);
        lemma_mul_inequality(wi, wi + 1, l);
        lemma_div_is_ordered(wi * l, (wi + 1) * l, ws);
        lemma_div_multiples_vanish(l, ws);
        assert(ws * l == l * ws) by (nonlinear_arith);
        lemma_div_pos_is_pos(wi * l, ws);
        assert(wi >= 0 && l >= 0 ==> wi * l >= 0) by (nonlinear_arith);
        // The slice size is the floor of (remainder + len) / workers, which
        // lies between len / workers and len / workers + 1.
        lemma_fundamental_div_mod(wi * l, ws);
        lemma_hoist_over_denominator(wi * l % ws + l, (wi * l) / ws, workers as nat);
        assert((wi + 1) * l == wi * l + l) by (nonlinear_arith);
        lemma_div_is_ordered(l, wi * l % ws + l, ws);
        lemma_fundamental_div_mod(l, ws);
        lemma_hoist_over_denominator(wi * l % ws + l % ws, l / ws, workers as nat);
        lemma_div_is_ordered(wi * l % ws + l % ws, 2 * ws - 2, ws);
        assert((2 * ws - 2) / ws <= 1) by {
            lemma_fundamental_div_mod(2 * ws - 2, ws);
            assert((2 * ws - 2) / ws < 2) by (nonlinear_arith)
                requires
                    ws >= 1,
                    2 * ws - 2 == ws * ((2 * ws - 2) / ws) + (2 * ws - 2) % ws,
                    0 <= (2 * ws - 2) % ws < ws,
            ;
            lemma_div_pos_is_pos(2 * ws - 2, ws);
        }
    }
    let s128 = (w as u128) * (len as u128) / (workers as u128);
    let e128 = ((w as u128) + 1) * (len as u128) / (workers as u128);
    (s128 as usize, e128 as usize)
}

/// The merge-order law: the output channels of two consecutive grid
/// slices, concatenated channel by channel, are exactly the channels of
/// the combined slice. Per-worker outputs merged in worker order therefore
/// reconstruct the canonical grid order, with no interleaving and no gaps,
/// whatever the slicing.
pub proof fn lemma_merge_order(
    si: SeparationIndex,
    primaries: Seq<Vector3>,
    white: Vector3,
    queries: Seq<Vector3>,
    a: int,
    b: int,
    c: int,
)
    requires
        0 <= a <= b <= c <= queries.len(),
    ensures
        forall|ch: int|
            0 <= ch < 1 + 2 * primaries.len() ==> #[trigger] spec_channels(
                si,
                primaries,
                white,
                queries.subrange(a, b),
            )[ch] + spec_channels(si, primaries, white, queries.subrange(b, c))[ch]
                == spec_channels(si, primaries, white, queries.subrange(a, c))[ch],
{
    assert forall|ch: int| 0 <= ch < 1 + 2 * primaries.len() implies #[trigger] spec_channels(
        si,
        primaries,
        white,
        queries.subrange(a, b),
    )[ch] + spec_channels(si, primaries, white, queries.subrange(b, c))[ch] == spec_channels(
        si,
        primaries,
        white,
        queries.subrange(a, c),
    )[ch] by {
        assert(queries.subrange(a, b).map_values(
            |q: Vector3| spec_cell(si, primaries, white, q, ch),
        ) + queries.subrange(b, c).map_values(
            |q: Vector3| spec_cell(si, primaries, white, q, ch),
        ) =~= queries.subrange(a, c).map_values(
            |q: Vector3| spec_cell(si, primaries, white, q, ch),
        ));
    }
}

/// Maps the whole grid by splitting it into one contiguous slice per worker
/// and concatenating the slices' outputs in worker order. The result is
/// exactly the canonical-order mapping of every cell, whatever the worker
/// count: the worker count is not observable in the output.
pub fn map_grid(
    si: &SeparationIndex,
    queries: &Vec<Vector3>,
    primaries: &Vec<Vector3>,
    white: Vector3,
    workers: usize,
) -> (out: ChannelSet)
    requires
        si.wf(),
        set_wf(si.candidates@, primaries@.len()),
        1 <= workers,
        forall|i: int|
            0 <= i < queries@.len() ==> coord_bounded(coords_of(#[trigger] queries@[i])),
        2 * primaries@.len() + 1 <= usize::MAX as int,
    ensures
        out@ == spec_channels(*si, primaries@, white, queries@),
{
    let len = queries.len();
    let n = primaries.len();
    let mut acc = empty_channels(n);
    let mut w: usize = 0;
    proof {
        assert(queries@.subrange(0, slice_start(len as int, workers as int, 0)) =~= Seq::<
            Vector3,
        >::empty());
        assert forall|ch: int| 0 <= ch < acc@.len() implies #[trigger] acc@[ch] == spec_channels(
            *si,
            primaries@,
            white,
            queries@.subrange(0, slice_start(len as int, workers as int, 0)),
        )[ch] by {
            assert(Seq::<Vector3>::empty().map_values(
                |q: Vector3| spec_cell(*si, primaries@, white, q, ch),
            ) =~= Seq::<Vector3>::empty());
        }
    }
    while w < workers
        invariant
            si.wf(),
            set_wf(si.candidates@, primaries@.len()),
            n == primaries@.len(),
            len == queries@.len(),
            1 <= workers,
            forall|i: int|
                0 <= i < queries@.len() ==> coord_bounded(coords_of(#[trigger] queries@[i])),
            2 * n + 1 <= usize::MAX as int,
            w <= workers,
            acc@.len() == 1 + 2 * n,
            forall|ch: int|
                0 <= ch < acc@.len() ==> #[trigger] acc@[ch] == spec_channels(
                    *si,
                    primaries@,
                    white,
                    queries@.subrange(0, slice_start(len as int, workers as int, w as int)),
                )[ch],
            0 <= slice_start(len as int, workers as int, w as int) <= len,
        decreases workers - w,
    {
        let (start, end) = worker_range(len, workers, w);
        let part = map_slice(si, queries, start, end, primaries, white);
        merge_append(&mut acc, part);
        proof {
            lemma_merge_order(*si, primaries@, white, queries@, 0, start as int, end as int);
        }
        w += 1;
    }
    proof {
        lemma_div_multiples_vanish(len as int, workers as int);
        assert((workers as int) * (len as int) == (len as int) * (workers as int)) by (
        nonlinear_arith);
        assert(queries@.subrange(0, slice_start(len as int, workers as int, workers as int))
            =~= queries@);
        assert(acc@ =~= spec_channels(*si, primaries@, white, queries@));
    }
    acc
}

/// [`map_grid`] behind run-time checks of its data-dependent conditions:
/// rejects an index whose candidates do not carry one unit-range fraction
/// per primary, and a query outside the coordinate range the index
/// accepts, instead of requiring them of the caller.
pub fn map_grid_checked(
    si: &SeparationIndex,
    queries: &Vec<Vector3>,
    primaries: &Vec<Vector3>,
    white: Vector3,
    workers: usize,
) -> (out: Result<ChannelSet, SeparationError>)
    requires
        si.wf(),
        1 <= workers,
        2 * primaries@.len() + 1 <= usize::MAX as int,
    ensures
        match out {
            Ok(cs) => {
                &&& set_wf(si.candidates@, primaries@.len())
                &&& forall|i: int|
                    0 <= i < queries@.len() ==> coord_bounded(
                        coords_of(#[trigger] queries@[i]),
                    )
                &&& cs@ == spec_channels(*si, primaries@, white, queries@)
            },
            Err(e) => {
                &&& (e == SeparationError::PrimaryCountMismatch <==> !set_wf(
                    si.candidates@,
                    primaries@.len(),
                ))
                &&& (e == SeparationError::ColorOutOfRange <==> (set_wf(
                    si.candidates@,
                    primaries@.len(),
                ) && exists|i: int|
                    0 <= i < queries@.len() && !coord_bounded(
                        coords_of(#[trigger] queries@[i]),
                    )))
                &&& (!set_wf(si.candidates@, primaries@.len()) || exists|i: int|
                    0 <= i < queries@.len() && !coord_bounded(
                        coords_of(#[trigger] queries@[i]),
                    ))
            },
        },
{
    let n = primaries.len();
    let clen = si.candidates.len();
    let mut ci: usize = 0;
    while ci < clen
        invariant
            n == primaries@.len(),
            clen == si.candidates@.len(),
            ci <= clen,
            forall|i: int| 0 <= i < ci ==> cand_wf(#[trigger] si.candidates@[i]@, n as nat),
        decreases clen - ci,
    {
        let c = &si.candidates[ci];
        if c.fractions.len() != n {
            proof {
                assert(!cand_wf(si.candidates@[ci as int]@, n as nat));
            }
            return Err(SeparationError::PrimaryCountMismatch);
        }
        let flen = c.fractions.len();
        let mut fi: usize = 0;
        while fi < flen
            invariant
                n == primaries@.len(),
                ci < clen,
                clen == si.candidates@.len(),
                *c == si.candidates@[ci as int],
                flen == c.fractions@.len(),
                flen == n,
                fi <= flen,
                forall|t: int| 0 <= t < fi ==> 0 <= #[trigger] c.fractions@[t] <= FX_ONE,
            decreases flen - fi,
        {
            let f = c.fractions[fi];
            if f < 0 || f > FX_ONE {
                proof {
                    assert(si.candidates@[ci as int]@.1[fi as int] == f);
                    assert(!cand_wf(si.candidates@[ci as int]@, n as nat));
                }
                return Err(SeparationError::PrimaryCountMismatch);
            }
            fi += 1;
        }
        ci += 1;
    }
    let qlen = queries.len();
    let mut qi: usize = 0;
    while qi < qlen
        invariant
            qlen == queries@.len(),
            qi <= qlen,
            n == primaries@.len(),
            set_wf(si.candidates@, n as nat),
            forall|t: int| 0 <= t < qi ==> coord_bounded(coords_of(#[trigger] queries@[t])),
        decreases qlen - qi,
    {
        let q = &queries[qi];
        if q.x < -COORD_BOUND || q.x > COORD_BOUND || q.y < -COORD_BOUND || q.y > COORD_BOUND
            || q.z < -COORD_BOUND || q.z > COORD_BOUND {
            return Err(SeparationError::ColorOutOfRange);
        }
        qi += 1;
    }
    Ok(map_grid(si, queries, primaries, white, workers))
}

} // verus!
