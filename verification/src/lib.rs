#![allow(unused_imports)]
pub mod chunk;
pub mod config;
pub mod flux;
pub mod seed;
pub mod solver;
pub mod sums;

use vstd::prelude::*;

verus! {

/// Flat row-major index of the cell at column `x`, row `y` of a grid
/// `width` cells wide: cells of one row are adjacent, rows follow each
/// other from `y == 0` upwards.
pub open spec fn cell_index(width: int, x: int, y: int) -> int {
    y * width + x
}

/// An in-grid coordinate pair addresses a slot inside the field storage.
pub proof fn lemma_cell_index_range(width: int, height: int, x: int, y: int)
    requires
        0 <= x < width,
        0 <= y < height,
    ensures
        0 <= cell_index(width, x, y) < width * height,
{
    assert(0 <= y * width + x < width * height) by (nonlinear_arith)
        requires
            0 <= x < width,
            0 <= y < height,
    ;
}

/// Two in-grid coordinate pairs address the same slot exactly when they are
/// the same pair.
pub proof fn lemma_cell_index_injective(width: int, x1: int, y1: int, x2: int, y2: int)
    requires
        0 <= x1 < width,
        0 <= y1,
        0 <= x2 < width,
        0 <= y2,
    ensures
        cell_index(width, x1, y1) == cell_index(width, x2, y2) <==> (x1 == x2 && y1 == y2),
{
    assert((y1 * width + x1 == y2 * width + x2) <==> (y1 == y2 && x1 == x2)) by (nonlinear_arith)
        requires
            0 <= x1 < width,
            0 <= y1,
            0 <= x2 < width,
            0 <= y2,
    ;
}

/// Every slot of the field storage is addressed by exactly one in-grid
/// coordinate pair, recovered by remainder and quotient.
pub proof fn lemma_cell_index_surjective(width: int, height: int, j: int)
    requires
        0 < width,
        0 < height,
        0 <= j < width * height,
    ensures
        0 <= j % width < width,
        0 <= j / width < height,
        cell_index(width, j % width, j / width) == j,
{
    vstd::arithmetic::div_mod::lemma_fundamental_div_mod(j, width);
    vstd::arithmetic::div_mod::lemma_mod_bound(j, width);
    assert(j == width * (j / width) + j % width);
    assert(j / width < height) by {
        if j / width >= height {
            assert(width * (j / width) >= width * height) by (nonlinear_arith)
                requires
                    j / width >= height,
                    0 < width,
            ;
        }
    }
    assert(j / width >= 0) by {
        vstd::arithmetic::div_mod::lemma_div_pos_is_pos(j, width);
    }
    assert(width * (j / width) == (j / width) * width) by (nonlinear_arith);
}

/// Row-major cell addressing for the executable grid storage.
pub fn grid_index(width: usize, height: usize, x: usize, y: usize) -> (i: usize)
    requires
        x < width,
        y < height,
        width * height <= usize::MAX,
    ensures
        i == cell_index(width as int, x as int, y as int),
        i < width * height,
{
    proof {
        assert(y * width + x < width * height) by (nonlinear_arith)
            requires
                x < width,
                y < height,
        ;
        assert(y * width + width * y == 2 * (y * width)) by (nonlinear_arith);
    }
    y * width + x
}

} // verus!
