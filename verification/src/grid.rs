//! The output LUT grid, enumerated in canonical order.
//!
//! For an edge length `s`, the grid holds `s^3` cells: blue varies
//! outermost, then green, then red innermost, each over `s` evenly spaced
//! fixed-point values from zero to one. Cell `i` therefore has the red index
//! `i % s`, the green index `(i / s) % s` and the blue index `i / s^2`.

use vstd::prelude::*;

use crate::candidates::frac_fx;
use crate::candidates::lemma_frac_fx_bounds;
use crate::vector::Vector3;

verus! {

/// The fixed-point component for axis index `idx` of a grid with edge
/// length `size`: `idx / (size - 1)` scaled to fixed point.
pub open spec fn grid_component(size: int, idx: int) -> i64 {
    frac_fx(idx, size - 1) as i64
}

/// The color of cell `i` of a grid with edge length `size`, in canonical
/// order.
pub open spec fn grid_cell(size: int, i: int) -> Vector3 {
    Vector3 {
        x: grid_component(size, i % size),
        y: grid_component(size, (i / size) % size),
        z: grid_component(size, i / (size * size)),
    }
}

/// Builds the full grid of `size^3` cells in canonical order, each
/// component an evenly spaced fixed-point value in `[0, 1]`.
pub fn generate_grid(size: usize) -> (grid: Vec<Vector3>)
    requires
        2 <= size,
        (size as int) * (size as int) * (size as int) <= usize::MAX as int,
    ensures
        grid@.len() == (size as int) * (size as int) * (size as int),
        forall|i: int| 0 <= i < grid@.len() ==> grid@[i] == grid_cell(size as int, i),
{
    proof {
        assert((size as int) * (size as int) <= (size as int) * (size as int) * (size as int))
            by (nonlinear_arith)
            requires
                2 <= size,
        ;
        assert(usize::MAX as int <= u64::MAX as int);
        assert((size as int) <= 0x40_0000) by (nonlinear_arith)
            requires
                2 <= (size as int),
                (size as int) * (size as int) * (size as int) <= u64::MAX as int,
        ;
    }
    let square: usize = size * size;
    let count: usize = square * size;
    let den: usize = size - 1;
    let mut grid: Vec<Vector3> = Vec::new();
    let mut i: usize = 0;
    while i < count
        invariant
            2 <= size,
            size <= 0x40_0000,
            den == size - 1,
            square == (size as int) * (size as int),
            count == (size as int) * (size as int) * (size as int),
            i <= count,
            grid@.len() == i,
            forall|t: int| 0 <= t < i ==> grid@[t] == grid_cell(size as int, t),
        decreases count - i,
    {
        let ir: usize = i % size;
        let ig: usize = (i / size) % size;
        let ib: usize = i / square;
        proof {
            assert(ib < size) by (nonlinear_arith)
                requires
                    2 <= size,
                    square == (size as int) * (size as int),
                    count == (size as int) * (size as int) * (size as int),
                    0 <= i < count,
                    ib == i as int / square as int,
            ;
            lemma_frac_fx_bounds(ir as int, den as int);
            lemma_frac_fx_bounds(ig as int, den as int);
            lemma_frac_fx_bounds(ib as int, den as int);
        }
        let x: i64 = ((ir as u64 * 65536u64) / (den as u64)) as i64;
        let y: i64 = ((ig as u64 * 65536u64) / (den as u64)) as i64;
        let z: i64 = ((ib as u64 * 65536u64) / (den as u64)) as i64;
        grid.push(Vector3 { x, y, z });
        i += 1;
    }
    grid
}

} // verus!
