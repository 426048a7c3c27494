//! Chunk scheduling: the grid is cut into square chunks, one chunk is
//! processed per tick, and a cursor walks the chunk grid in row-major order,
//! wrapping to the origin after the last chunk. The wrap is the signal that a
//! full sweep has been accumulated.
use vstd::arithmetic::div_mod::{
    lemma_fundamental_div_mod_converse, lemma_mod_self_0, lemma_small_mod,
};
use vstd::prelude::*;

verus! {

/// Number of chunks covering one axis of `extent` cells with chunks of side
/// `chunk`: the quotient rounded upward, so a trailing partial chunk counts.
pub open spec fn chunks_across(extent: int, chunk: int) -> int {
    (extent + chunk - 1) / chunk
}

/// First cell index covered by chunk `ci` along one axis.
pub open spec fn chunk_lo(ci: int, chunk: int) -> int {
    ci * chunk
}

/// One past the last cell index covered by chunk `ci` along one axis of
/// `extent` cells: a trailing chunk is clamped to the grid bound.
pub open spec fn chunk_hi(ci: int, chunk: int, extent: int) -> int {
    if ci * chunk + chunk <= extent {
        ci * chunk + chunk
    } else {
        extent
    }
}

/// The linear position of the cursor `(cx, cy)` on a chunk grid `cw` chunks
/// wide, counting in row-major order.
pub open spec fn cursor_linear(cx: int, cy: int, cw: int) -> int {
    cy * cw + cx
}

/// Chunk counting covers the whole axis and no more: every in-range chunk
/// index starts strictly inside the axis, covers at least one cell, and the
/// count itself never exceeds the cell count.
pub proof fn lemma_chunk_span(extent: int, chunk: int, ci: int)
    requires
        0 < extent,
        0 < chunk,
        0 <= ci < chunks_across(extent, chunk),
    ensures
        chunks_across(extent, chunk) <= extent,
        0 <= chunk_lo(ci, chunk) < extent,
        chunk_lo(ci, chunk) < chunk_hi(ci, chunk, extent) <= extent,
        chunk_hi(ci, chunk, extent) - chunk_lo(ci, chunk) <= chunk,
{
    let cw = chunks_across(extent, chunk);
    assert(extent + chunk - 1 == cw * chunk + ((extent + chunk - 1) % chunk)) by {
        vstd::arithmetic::div_mod::lemma_fundamental_div_mod(extent + chunk - 1, chunk);
    }
    assert(0 <= (extent + chunk - 1) % chunk < chunk) by {
        vstd::arithmetic::div_mod::lemma_mod_bound(extent + chunk - 1, chunk);
    }
    // cw * chunk is within chunk - 1 of extent + chunk - 1, so ci * chunk < extent.
    assert((ci + 1) * chunk <= cw * chunk) by (nonlinear_arith)
        requires
            ci + 1 <= cw,
            0 < chunk,
    ;
    assert(ci * chunk + chunk == (ci + 1) * chunk) by (nonlinear_arith);
    assert(cw * chunk <= extent + chunk - 1);
    assert(ci * chunk >= 0) by (nonlinear_arith)
        requires
            0 <= ci,
            0 < chunk,
    ;
    // The chunk count never exceeds the cell count.
    assert(cw <= extent) by {
        assert(extent + chunk - 1 <= extent * chunk) by (nonlinear_arith)
            requires
                0 < extent,
                0 < chunk,
        ;
        assert(cw * chunk <= extent * chunk);
        assert(cw <= extent) by (nonlinear_arith)
            requires
                cw * chunk <= extent * chunk,
                0 < chunk,
        ;
    }
}

/// A positive axis is covered by at least one chunk and by no more chunks
/// than it has cells.
pub proof fn lemma_chunks_across_bounds(extent: int, chunk: int)
    requires
        0 < extent,
        0 < chunk,
    ensures
        1 <= chunks_across(extent, chunk) <= extent,
{
    assert(chunks_across(extent, chunk) >= 1) by {
        vstd::arithmetic::div_mod::lemma_div_by_self(chunk);
        vstd::arithmetic::div_mod::lemma_div_is_ordered(chunk, extent + chunk - 1, chunk);
    }
    lemma_chunk_span(extent, chunk, 0);
}

/// Row-major linearization is a bijection between cursor coordinates and
/// positions: the linear position determines the coordinates by division and
/// remainder, and it respects row-major order.
pub proof fn lemma_cursor_linear_coords(cx: int, cy: int, cw: int)
    requires
        0 <= cx < cw,
        0 <= cy,
    ensures
        cursor_linear(cx, cy, cw) % cw == cx,
        cursor_linear(cx, cy, cw) / cw == cy,
        0 <= cursor_linear(cx, cy, cw),
{
    lemma_fundamental_div_mod_converse(cy * cw + cx, cw, cy, cx);
    assert(cy * cw >= 0) by (nonlinear_arith)
        requires
            0 <= cy,
            0 < cw,
    ;
}

/// The cursor visits chunks in row-major order: moving to a strictly later
/// linear position means moving to a later row, or rightward within a row.
pub proof fn lemma_cursor_row_major(cx1: int, cy1: int, cx2: int, cy2: int, cw: int)
    requires
        0 <= cx1 < cw,
        0 <= cy1,
        0 <= cx2 < cw,
        0 <= cy2,
    ensures
        cursor_linear(cx1, cy1, cw) < cursor_linear(cx2, cy2, cw) <==> (cy1 < cy2 || (cy1 == cy2
            && cx1 < cx2)),
        cursor_linear(cx1, cy1, cw) == cursor_linear(cx2, cy2, cw) <==> (cx1 == cx2 && cy1 == cy2),
{
    assert((cy1 * cw + cx1 < cy2 * cw + cx2) <==> (cy1 < cy2 || (cy1 == cy2 && cx1 < cx2)))
        by (nonlinear_arith)
        requires
            0 <= cx1 < cw,
            0 <= cy1,
            0 <= cx2 < cw,
            0 <= cy2,
    ;
    assert((cy1 * cw + cx1 == cy2 * cw + cx2) <==> (cx1 == cx2 && cy1 == cy2)) by (nonlinear_arith)
        requires
            0 <= cx1 < cw,
            0 <= cy1,
            0 <= cx2 < cw,
            0 <= cy2,
    ;
}

/// Sweep cadence: starting from linear cursor position `i`, the cursor wraps
/// to the origin at the `k`-th following tick exactly when `k` completes the
/// current sweep, once in any window of `total` consecutive ticks.
pub proof fn lemma_sweep_cadence(i: int, k: int, total: int)
    requires
        0 <= i < total,
        1 <= k <= total,
    ensures
        (i + k) % total == 0 <==> k == total - i,
{
    if k == total - i {
        lemma_mod_self_0(total);
    } else if i + k < total {
        lemma_small_mod((i + k) as nat, total as nat);
    } else {
        lemma_fundamental_div_mod_converse(i + k, total, 1, i + k - total);
    }
}

/// Executable chunk count along one axis.
pub fn chunks_across_len(extent: usize, chunk: usize) -> (n: usize)
    requires
        0 < extent,
        0 < chunk,
        extent + chunk <= usize::MAX,
    ensures
        n == chunks_across(extent as int, chunk as int),
        1 <= n <= extent,
{
    proof {
        lemma_chunks_across_bounds(extent as int, chunk as int);
    }
    (extent + chunk - 1) / chunk
}

} // verus!
