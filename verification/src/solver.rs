//! The incremental diffusion solver: a temperature field, a double-buffered
//! flux accumulator, and a chunk cursor, advanced tick by tick.
//!
//! Each tick accumulates the flux of one chunk's cells against their east and
//! south neighbors, then advances the cursor; when the cursor wraps to the
//! origin a sweep is complete, and the integrator turns the accumulated flux
//! into clamped temperature deltas and clears the accumulator.
use vstd::prelude::*;

use crate::cell_index;
use crate::chunk::{chunk_hi, chunk_lo, chunks_across, chunks_across_len, cursor_linear};
use crate::chunk::{lemma_chunk_span, lemma_chunks_across_bounds, lemma_cursor_linear_coords};
use crate::config::{Config, ConfigError, FLUX_UNIT, TICK_MILLIS_LIMIT};
use crate::flux::{div_trunc, flux_spec, FLUX_ABS};
use crate::grid_index;
use crate::lemma_cell_index_injective;
use crate::lemma_cell_index_range;
use crate::lemma_cell_index_surjective;
use crate::sums::{lemma_sum_update, lemma_sum_zero, sum_i128};

verus! {

/// Largest magnitude an accumulator slot can hold under a valid
/// configuration: four flux samples per chunk for each cell, over at most
/// `GRID_DIM_LIMIT` squared chunks per sweep.
pub const ACC_ABS: i128 = 1_610_612_736_000_000_000_000_000;

/// Clamping a value into the closed range from `lo` to `hi`.
pub open spec fn clamp_spec(v: int, lo: int, hi: int) -> int {
    if v < lo {
        lo
    } else if v > hi {
        hi
    } else {
        v
    }
}

/// Whether `(x, y)` lies in the half-open cell rectangle of one chunk.
pub open spec fn in_rect(x: int, y: int, x0: int, x1: int, y0: int, y1: int) -> bool {
    x0 <= x < x1 && y0 <= y < y1
}

/// Flux from the cell at `(x, y)` to its east neighbor, or zero at the east
/// boundary: the boundary is insulated.
pub open spec fn east_flux(cfg: Config, temps: Seq<i64>, x: int, y: int) -> int {
    if x + 1 < cfg.width {
        flux_spec(
            cfg,
            temps[cell_index(cfg.width as int, x, y)] as int,
            temps[cell_index(cfg.width as int, x + 1, y)] as int,
        )
    } else {
        0
    }
}

/// Flux from the cell at `(x, y)` to its south neighbor, or zero at the
/// south boundary: the boundary is insulated.
pub open spec fn south_flux(cfg: Config, temps: Seq<i64>, x: int, y: int) -> int {
    if y + 1 < cfg.height {
        flux_spec(
            cfg,
            temps[cell_index(cfg.width as int, x, y)] as int,
            temps[cell_index(cfg.width as int, x, y + 1)] as int,
        )
    } else {
        0
    }
}

/// What accumulating one chunk adds to the accumulator slot of cell
/// `(x, y)`: its own outgoing east and south flux is subtracted if the cell
/// lies in the chunk, and the flux out of its west and north neighbors is
/// added if those lie in the chunk.
pub open spec fn chunk_delta(
    cfg: Config,
    temps: Seq<i64>,
    x0: int,
    x1: int,
    y0: int,
    y1: int,
    x: int,
    y: int,
) -> int {
    (if in_rect(x, y, x0, x1, y0, y1) {
        -east_flux(cfg, temps, x, y) - south_flux(cfg, temps, x, y)
    } else {
        0
    }) + (if 0 < x && in_rect(x - 1, y, x0, x1, y0, y1) {
        east_flux(cfg, temps, x - 1, y)
    } else {
        0
    }) + (if 0 < y && in_rect(x, y - 1, x0, x1, y0, y1) {
        south_flux(cfg, temps, x, y - 1)
    } else {
        0
    })
}

/// What accumulating the single cell `(px, py)` adds to the accumulator slot
/// of cell `(x, y)`.
pub open spec fn cell_contrib(
    cfg: Config,
    temps: Seq<i64>,
    px: int,
    py: int,
    x: int,
    y: int,
) -> int {
    (if x == px && y == py {
        -east_flux(cfg, temps, px, py) - south_flux(cfg, temps, px, py)
    } else {
        0
    }) + (if x == px + 1 && y == py {
        east_flux(cfg, temps, px, py)
    } else {
        0
    }) + (if x == px && y == py + 1 {
        south_flux(cfg, temps, px, py)
    } else {
        0
    })
}

/// Whether the source cell `(sx, sy)` of the chunk has already been
/// accumulated when the chunk walk stands at column `px`, row `py`: the walk
/// takes columns left to right and, within a column, rows top to bottom.
pub open spec fn cell_processed(
    sx: int,
    sy: int,
    x0: int,
    x1: int,
    y0: int,
    y1: int,
    px: int,
    py: int,
) -> bool {
    in_rect(sx, sy, x0, x1, y0, y1) && (sx < px || (sx == px && sy < py))
}

/// What the part of the chunk already walked has added to the accumulator
/// slot of cell `(x, y)`.
pub open spec fn chunk_delta_partial(
    cfg: Config,
    temps: Seq<i64>,
    x0: int,
    x1: int,
    y0: int,
    y1: int,
    px: int,
    py: int,
    x: int,
    y: int,
) -> int {
    (if cell_processed(x, y, x0, x1, y0, y1, px, py) {
        -east_flux(cfg, temps, x, y) - south_flux(cfg, temps, x, y)
    } else {
        0
    }) + (if 0 < x && cell_processed(x - 1, y, x0, x1, y0, y1, px, py) {
        east_flux(cfg, temps, x - 1, y)
    } else {
        0
    }) + (if 0 < y && cell_processed(x, y - 1, x0, x1, y0, y1, px, py) {
        south_flux(cfg, temps, x, y - 1)
    } else {
        0
    })
}

/// The committed temperature of one cell after integration: the accumulated
/// flux, scaled by the heat transfer speed and the tick length and divided
/// by the thermal mass, moves the temperature, and the result is clamped to
/// the configured range.
pub open spec fn integrate_cell_spec(cfg: Config, t: int, a: int, dt: int) -> int {
    clamp_spec(
        t + div_trunc(a * cfg.heat_speed * dt, cfg.mass_capacity * FLUX_UNIT),
        cfg.min_heat as int,
        cfg.max_heat as int,
    )
}

/// Every flux sample of an in-range field toward an east neighbor is within
/// the flux magnitude limit.
proof fn lemma_east_flux_bound(cfg: Config, temps: Seq<i64>, x: int, y: int)
    requires
        cfg.valid(),
        temps.len() == cfg.width * cfg.height,
        forall|i: int|
            0 <= i < temps.len() ==> cfg.min_heat <= #[trigger] temps[i] <= cfg.max_heat,
        0 <= x < cfg.width,
        0 <= y < cfg.height,
    ensures
        -(FLUX_ABS as int) <= east_flux(cfg, temps, x, y) <= FLUX_ABS as int,
{
    if x + 1 < cfg.width {
        lemma_cell_index_range(cfg.width as int, cfg.height as int, x, y);
        lemma_cell_index_range(cfg.width as int, cfg.height as int, x + 1, y);
        crate::flux::lemma_flux_bound(
            cfg,
            temps[cell_index(cfg.width as int, x, y)] as int,
            temps[cell_index(cfg.width as int, x + 1, y)] as int,
        );
    }
}

/// Every flux sample of an in-range field toward a south neighbor is within
/// the flux magnitude limit.
proof fn lemma_south_flux_bound(cfg: Config, temps: Seq<i64>, x: int, y: int)
    requires
        cfg.valid(),
        temps.len() == cfg.width * cfg.height,
        forall|i: int|
            0 <= i < temps.len() ==> cfg.min_heat <= #[trigger] temps[i] <= cfg.max_heat,
        0 <= x < cfg.width,
        0 <= y < cfg.height,
    ensures
        -(FLUX_ABS as int) <= south_flux(cfg, temps, x, y) <= FLUX_ABS as int,
{
    if y + 1 < cfg.height {
        lemma_cell_index_range(cfg.width as int, cfg.height as int, x, y);
        lemma_cell_index_range(cfg.width as int, cfg.height as int, x, y + 1);
        crate::flux::lemma_flux_bound(
            cfg,
            temps[cell_index(cfg.width as int, x, y)] as int,
            temps[cell_index(cfg.width as int, x, y + 1)] as int,
        );
    }
}

/// Before any cell of the chunk is walked, nothing has been added.
proof fn lemma_partial_start(
    cfg: Config,
    temps: Seq<i64>,
    x0: int,
    x1: int,
    y0: int,
    y1: int,
    x: int,
    y: int,
)
    ensures
        chunk_delta_partial(cfg, temps, x0, x1, y0, y1, x0, y0, x, y) == 0,
{
}

/// Walking one more cell of the chunk adds exactly that cell's
/// contribution to every slot.
proof fn lemma_partial_step(
    cfg: Config,
    temps: Seq<i64>,
    x0: int,
    x1: int,
    y0: int,
    y1: int,
    px: int,
    py: int,
    x: int,
    y: int,
)
    requires
        in_rect(px, py, x0, x1, y0, y1),
        0 <= x0,
        0 <= y0,
    ensures
        chunk_delta_partial(cfg, temps, x0, x1, y0, y1, px, py + 1, x, y) == chunk_delta_partial(
            cfg,
            temps,
            x0,
            x1,
            y0,
            y1,
            px,
            py,
            x,
            y,
        ) + cell_contrib(cfg, temps, px, py, x, y),
{
}

/// Finishing one column of the chunk walk is the same as standing at the
/// top of the next column.
proof fn lemma_partial_column(
    cfg: Config,
    temps: Seq<i64>,
    x0: int,
    x1: int,
    y0: int,
    y1: int,
    px: int,
    x: int,
    y: int,
)
    requires
        x0 <= px < x1,
    ensures
        chunk_delta_partial(cfg, temps, x0, x1, y0, y1, px, y1, x, y) == chunk_delta_partial(
            cfg,
            temps,
            x0,
            x1,
            y0,
            y1,
            px + 1,
            y0,
            x,
            y,
        ),
{
}

/// After the last column the walk has added the whole chunk's
/// contribution.
proof fn lemma_partial_complete(
    cfg: Config,
    temps: Seq<i64>,
    x0: int,
    x1: int,
    y0: int,
    y1: int,
    x: int,
    y: int,
)
    ensures
        chunk_delta_partial(cfg, temps, x0, x1, y0, y1, x1, y0, x, y) == chunk_delta(
            cfg,
            temps,
            x0,
            x1,
            y0,
            y1,
            x,
            y,
        ),
{
}

/// A partial chunk walk moves any single slot by at most four flux samples.
proof fn lemma_partial_bound(
    cfg: Config,
    temps: Seq<i64>,
    x0: int,
    x1: int,
    y0: int,
    y1: int,
    px: int,
    py: int,
    x: int,
    y: int,
)
    requires
        cfg.valid(),
        temps.len() == cfg.width * cfg.height,
        forall|i: int|
            0 <= i < temps.len() ==> cfg.min_heat <= #[trigger] temps[i] <= cfg.max_heat,
        0 <= x0,
        x1 <= cfg.width,
        0 <= y0,
        y1 <= cfg.height,
        0 <= x < cfg.width,
        0 <= y < cfg.height,
    ensures
        -4 * (FLUX_ABS as int) <= chunk_delta_partial(cfg, temps, x0, x1, y0, y1, px, py, x, y)
            <= 4 * (FLUX_ABS as int),
{
    lemma_east_flux_bound(cfg, temps, x, y);
    lemma_south_flux_bound(cfg, temps, x, y);
    if 0 < x && in_rect(x - 1, y, x0, x1, y0, y1) {
        lemma_east_flux_bound(cfg, temps, x - 1, y);
    }
    if 0 < y && in_rect(x, y - 1, x0, x1, y0, y1) {
        lemma_south_flux_bound(cfg, temps, x, y - 1);
    }
}

/// A whole chunk moves any single slot by at most four flux samples.
proof fn lemma_chunk_delta_bound(
    cfg: Config,
    temps: Seq<i64>,
    x0: int,
    x1: int,
    y0: int,
    y1: int,
    x: int,
    y: int,
)
    requires
        cfg.valid(),
        temps.len() == cfg.width * cfg.height,
        forall|i: int|
            0 <= i < temps.len() ==> cfg.min_heat <= #[trigger] temps[i] <= cfg.max_heat,
        0 <= x0,
        x1 <= cfg.width,
        0 <= y0,
        y1 <= cfg.height,
        0 <= x < cfg.width,
        0 <= y < cfg.height,
    ensures
        -4 * (FLUX_ABS as int) <= chunk_delta(cfg, temps, x0, x1, y0, y1, x, y) <= 4 * (
        FLUX_ABS as int),
{
    lemma_partial_complete(cfg, temps, x0, x1, y0, y1, x, y);
    lemma_partial_bound(cfg, temps, x0, x1, y0, y1, x1, y0, x, y);
}

/// Accumulates the east and south flux of the single cell `(px, py)` into
/// the accumulator: subtracted at the cell, added at the neighbor, with
/// off-grid neighbors skipped.
fn accumulate_cell(cfg: &Config, temps: &Vec<i64>, acc: &mut Vec<i128>, px: usize, py: usize)
    requires
        cfg.valid(),
        temps@.len() == cfg.width * cfg.height,
        forall|i: int|
            0 <= i < temps@.len() ==> cfg.min_heat <= #[trigger] temps@[i] <= cfg.max_heat,
        old(acc)@.len() == cfg.width * cfg.height,
        forall|j: int|
            0 <= j < old(acc)@.len() ==> -ACC_ABS <= #[trigger] old(acc)@[j] <= ACC_ABS,
        px < cfg.width,
        py < cfg.height,
    ensures
        final(acc)@.len() == old(acc)@.len(),
        forall|x: int, y: int|
            0 <= x < cfg.width && 0 <= y < cfg.height ==> final(acc)@[#[trigger] cell_index(
                cfg.width as int,
                x,
                y,
            )] == old(acc)@[cell_index(cfg.width as int, x, y)] + cell_contrib(
                *cfg,
                temps@,
                px as int,
                py as int,
                x,
                y,
            ),
        sum_i128(final(acc)@) == sum_i128(old(acc)@),
{
    let w = cfg.width;
    let h = cfg.height;
    proof {
        assert(w * h <= 16_777_216) by (nonlinear_arith)
            requires
                0 < w <= 4096,
                0 < h <= 4096,
        ;
        lemma_cell_index_range(w as int, h as int, px as int, py as int);
    }
    let ghost acc0 = acc@;
    let i_src = grid_index(w, h, px, py);
    let t_src = temps[i_src];
    proof {
        crate::flux::lemma_flux_bound(*cfg, t_src as int, t_src as int);
    }
    if px + 1 < w {
        proof {
            lemma_cell_index_range(w as int, h as int, px + 1 as int, py as int);
        }
        let i_east = grid_index(w, h, px + 1, py);
        let f = crate::flux::heat_flux(cfg, t_src, temps[i_east]);
        proof {
            lemma_cell_index_injective(w as int, px as int, py as int, px + 1 as int, py as int);
        }
        let a = acc[i_src];
        acc.set(i_src, a - (f as i128));
        proof {
            lemma_sum_update(acc0, i_src as int, (a - (f as i128)) as i128);
        }
        let b = acc[i_east];
        let ghost acc1 = acc@;
        acc.set(i_east, b + (f as i128));
        proof {
            lemma_sum_update(acc1, i_east as int, (b + (f as i128)) as i128);
        }
    }
    if py + 1 < h {
        proof {
            lemma_cell_index_range(w as int, h as int, px as int, py + 1 as int);
        }
        let i_south = grid_index(w, h, px, py + 1);
        let f = crate::flux::heat_flux(cfg, t_src, temps[i_south]);
        proof {
            lemma_cell_index_injective(w as int, px as int, py as int, px as int, py + 1 as int);
            if px + 1 < w {
                lemma_cell_index_injective(
                    w as int,
                    px + 1 as int,
                    py as int,
                    px as int,
                    py + 1 as int,
                );
            }
        }
        let a = acc[i_src];
        let ghost acc2 = acc@;
        acc.set(i_src, a - (f as i128));
        proof {
            lemma_sum_update(acc2, i_src as int, (a - (f as i128)) as i128);
        }
        let b = acc[i_south];
        let ghost acc3 = acc@;
        acc.set(i_south, b + (f as i128));
        proof {
            lemma_sum_update(acc3, i_south as int, (b + (f as i128)) as i128);
        }
    }
    proof {
        assert forall|x: int, y: int| 0 <= x < cfg.width && 0 <= y < cfg.height implies acc@[
        #[trigger] cell_index(cfg.width as int, x, y)] == acc0[cell_index(cfg.width as int, x, y)]
            + cell_contrib(*cfg, temps@, px as int, py as int, x, y) by {
            lemma_cell_index_range(w as int, h as int, x, y);
            let j = cell_index(w as int, x, y);
            if j == cell_index(w as int, px as int, py as int) {
                lemma_cell_index_injective(w as int, x, y, px as int, py as int);
            }
            if px + 1 < w && j == cell_index(w as int, px + 1 as int, py as int) {
                lemma_cell_index_injective(w as int, x, y, px + 1 as int, py as int);
            }
            if py + 1 < h && j == cell_index(w as int, px as int, py + 1 as int) {
                lemma_cell_index_injective(w as int, x, y, px as int, py + 1 as int);
            }
        }
    }
}

/// One solver instance: the configuration fixed at setup, the temperature
/// field, the flux accumulator, and the chunk cursor with its sweep flag.
pub struct Solver {
    config: Config,
    temps: Vec<i64>,
    acc: Vec<i128>,
    cursor_x: usize,
    cursor_y: usize,
    sweep_done: bool,
}

impl Solver {
    /// The configuration this solver was built with.
    pub closed spec fn cfg(self) -> Config {
        self.config
    }

    /// The temperature field, row-major.
    pub closed spec fn temps_seq(self) -> Seq<i64> {
        self.temps@
    }

    /// The flux accumulator, row-major.
    pub closed spec fn acc_seq(self) -> Seq<i128> {
        self.acc@
    }

    /// Chunk-grid column of the cursor.
    pub closed spec fn cursor_cx(self) -> int {
        self.cursor_x as int
    }

    /// Chunk-grid row of the cursor.
    pub closed spec fn cursor_cy(self) -> int {
        self.cursor_y as int
    }

    /// Whether a completed sweep awaits integration.
    pub closed spec fn sweep_complete(self) -> bool {
        self.sweep_done
    }

    /// Chunks per chunk-grid row.
    pub open spec fn chunks_x(self) -> int {
        chunks_across(self.cfg().width as int, self.cfg().chunk_size as int)
    }

    /// Chunk-grid rows.
    pub open spec fn chunks_y(self) -> int {
        chunks_across(self.cfg().height as int, self.cfg().chunk_size as int)
    }

    /// Chunks per sweep, which is also the tick count of one sweep.
    pub open spec fn chunks_total(self) -> int {
        self.chunks_x() * self.chunks_y()
    }

    /// How many chunks of the current sweep have been accumulated.
    pub open spec fn accumulated_chunks(self) -> int {
        if self.sweep_complete() {
            self.chunks_total()
        } else {
            cursor_linear(self.cursor_cx(), self.cursor_cy(), self.chunks_x())
        }
    }

    /// Largest magnitude any accumulator slot can have reached: each
    /// accumulated chunk adds at most four flux samples to one slot.
    pub open spec fn acc_limit(self) -> int {
        4 * (FLUX_ABS as int) * self.accumulated_chunks()
    }

    /// The solver invariant: the configuration is valid, both fields hold
    /// one slot per grid cell, every temperature is inside the clamp range,
    /// the cursor is inside the chunk grid and sits at the origin whenever a
    /// completed sweep awaits integration, every accumulator slot is within
    /// the reach of the chunks accumulated so far, and the accumulator sums
    /// to zero: heat in flight is conserved.
    pub closed spec fn wf(self) -> bool {
        &&& self.config.valid()
        &&& self.temps@.len() == self.config.width * self.config.height
        &&& self.acc@.len() == self.config.width * self.config.height
        &&& forall|i: int|
            0 <= i < self.temps@.len() ==> self.config.min_heat <= #[trigger] self.temps@[i]
                <= self.config.max_heat
        &&& 0 <= self.cursor_cx() < self.chunks_x()
        &&& 0 <= self.cursor_cy() < self.chunks_y()
        &&& (self.sweep_complete() ==> self.cursor_cx() == 0 && self.cursor_cy() == 0)
        &&& forall|j: int|
            0 <= j < self.acc@.len() ==> -self.acc_limit() <= #[trigger] self.acc@[j]
                <= self.acc_limit()
        &&& sum_i128(self.acc@) == 0
    }

    /// Conservation: at every well-formed state, in particular immediately
    /// before an integration, the accumulator entries sum to exactly zero,
    /// because every edge's flux was subtracted at its source cell and added
    /// at its target cell.
    pub proof fn lemma_conservation(self)
        requires
            self.wf(),
        ensures
            sum_i128(self.acc_seq()) == 0,
    {
    }

    /// Boundedness: at every well-formed state, in particular after every
    /// integration, each committed temperature lies within the configured
    /// clamp range.
    pub proof fn lemma_boundedness(self)
        requires
            self.wf(),
        ensures
            self.temps_seq().len() == self.cfg().width * self.cfg().height,
            forall|i: int|
                0 <= i < self.temps_seq().len() ==> self.cfg().min_heat
                    <= #[trigger] self.temps_seq()[i] <= self.cfg().max_heat,
    {
    }

    /// The accumulator magnitude limit of any well-formed solver fits the
    /// executable headroom constant.
    proof fn lemma_acc_limit_le(self)
        requires
            self.wf(),
        ensures
            0 <= self.acc_limit() <= ACC_ABS as int,
    {
        let w = self.config.width as int;
        let h = self.config.height as int;
        let c = self.config.chunk_size as int;
        lemma_chunks_across_bounds(w, c);
        lemma_chunks_across_bounds(h, c);
        assert(1 <= self.chunks_total() <= 16_777_216) by (nonlinear_arith)
            requires
                0 < self.chunks_x() <= 4096,
                0 < self.chunks_y() <= 4096,
        ;
        if !self.sweep_complete() {
            lemma_cursor_linear_coords(self.cursor_cx(), self.cursor_cy(), self.chunks_x());
            assert(self.accumulated_chunks() < self.chunks_total()) by (nonlinear_arith)
                requires
                    0 <= self.cursor_cx() < self.chunks_x(),
                    0 <= self.cursor_cy() < self.chunks_y(),
                    self.accumulated_chunks() == self.cursor_cy() * self.chunks_x()
                        + self.cursor_cx(),
            ;
        }
        assert(0 <= self.accumulated_chunks() <= 16_777_216);
        assert(4 * (FLUX_ABS as int) * self.accumulated_chunks() <= 4 * (FLUX_ABS as int)
            * 16_777_216) by (nonlinear_arith)
            requires
                0 <= self.accumulated_chunks() <= 16_777_216,
        ;
        assert(4 * (FLUX_ABS as int) * self.accumulated_chunks() >= 0) by (nonlinear_arith)
            requires
                0 <= self.accumulated_chunks(),
        ;
    }

    /// Mid-sweep, the accumulator limit leaves room for one more chunk
    /// within the executable headroom constant.
    proof fn lemma_acc_headroom(self)
        requires
            self.wf(),
            !self.sweep_complete(),
        ensures
            0 <= self.acc_limit(),
            self.acc_limit() + 4 * (FLUX_ABS as int) <= ACC_ABS as int,
    {
        let w = self.config.width as int;
        let h = self.config.height as int;
        let c = self.config.chunk_size as int;
        lemma_chunks_across_bounds(w, c);
        lemma_chunks_across_bounds(h, c);
        assert(1 <= self.chunks_total() <= 16_777_216) by (nonlinear_arith)
            requires
                0 < self.chunks_x() <= 4096,
                0 < self.chunks_y() <= 4096,
        ;
        lemma_cursor_linear_coords(self.cursor_cx(), self.cursor_cy(), self.chunks_x());
        assert(self.accumulated_chunks() < self.chunks_total()) by (nonlinear_arith)
            requires
                0 <= self.cursor_cx() < self.chunks_x(),
                0 <= self.cursor_cy() < self.chunks_y(),
                self.accumulated_chunks() == self.cursor_cy() * self.chunks_x() + self.cursor_cx(),
        ;
        assert(4 * (FLUX_ABS as int) * self.accumulated_chunks() + 4 * (FLUX_ABS as int) <= 4 * (
        FLUX_ABS as int) * 16_777_216) by (nonlinear_arith)
            requires
                0 <= self.accumulated_chunks() <= 16_777_215,
        ;
        assert(4 * (FLUX_ABS as int) * self.accumulated_chunks() >= 0) by (nonlinear_arith)
            requires
                0 <= self.accumulated_chunks(),
        ;
    }

    /// Builds a solver over a `width` by `height` grid seeded with one
    /// temperature per cell, row-major; out-of-range seed values are clamped
    /// the way the integrator clamps. Rejects the configuration errors spec
    /// names and a seed of the wrong cell count.
    pub fn new(cfg: Config, seed: Vec<i64>) -> (r: Result<Solver, ConfigError>)
        ensures
            r is Ok <==> cfg.valid() && seed@.len() == cfg.width * cfg.height,
            !cfg.valid() ==> (r matches Err(e) && cfg.check_spec() == Err::<(), ConfigError>(e)),
            cfg.valid() && seed@.len() != cfg.width * cfg.height ==> r == Err::<
                Solver,
                ConfigError,
            >(ConfigError::SeedCellCount),
            r matches Ok(s) ==> {
                &&& s.wf()
                &&& s.cfg() == cfg
                &&& s.temps_seq().len() == cfg.width * cfg.height
                &&& forall|i: int|
                    0 <= i < s.temps_seq().len() ==> #[trigger] s.temps_seq()[i] == clamp_spec(
                        seed@[i] as int,
                        cfg.min_heat as int,
                        cfg.max_heat as int,
                    )
                &&& forall|j: int| 0 <= j < s.acc_seq().len() ==> #[trigger] s.acc_seq()[j] == 0
                &&& s.cursor_cx() == 0
                &&& s.cursor_cy() == 0
                &&& !s.sweep_complete()
            },
    {
        if let Err(e) = cfg.validate() {
            return Err(e);
        }
        proof {
            assert(cfg.width * cfg.height <= 16_777_216) by (nonlinear_arith)
                requires
                    0 < cfg.width <= 4096,
                    0 < cfg.height <= 4096,
            ;
        }
        let cells: usize = cfg.width * cfg.height;
        if seed.len() != cells {
            return Err(ConfigError::SeedCellCount);
        }
        let mut temps = seed;
        let ghost seed_view = temps@;
        let mut i: usize = 0;
        while i < cells
            invariant
                cfg.valid(),
                temps@.len() == cells,
                cells == cfg.width * cfg.height,
                i <= cells,
                seed_view.len() == cells,
                forall|k: int|
                    0 <= k < i ==> #[trigger] temps@[k] == clamp_spec(
                        seed_view[k] as int,
                        cfg.min_heat as int,
                        cfg.max_heat as int,
                    ),
                forall|k: int| i <= k < cells ==> #[trigger] temps@[k] == seed_view[k],
            decreases cells - i,
        {
            let v = temps[i];
            let c = if v < cfg.min_heat {
                cfg.min_heat
            } else if v > cfg.max_heat {
                cfg.max_heat
            } else {
                v
            };
            temps.set(i, c);
            i = i + 1;
        }
        let mut acc: Vec<i128> = Vec::new();
        let mut j: usize = 0;
        while j < cells
            invariant
                acc@.len() == j,
                j <= cells,
                forall|k: int| 0 <= k < j ==> #[trigger] acc@[k] == 0,
            decreases cells - j,
        {
            acc.push(0);
            j = j + 1;
        }
        proof {
            lemma_sum_zero(acc@);
            lemma_chunks_across_bounds(cfg.width as int, cfg.chunk_size as int);
            lemma_chunks_across_bounds(cfg.height as int, cfg.chunk_size as int);
        }
        Ok(
            Solver {
                config: cfg,
                temps,
                acc,
                cursor_x: 0,
                cursor_y: 0,
                sweep_done: false,
            },
        )
    }

    /// Grid width in cells.
    pub fn width(&self) -> (w: usize)
        ensures
            w == self.cfg().width,
    {
        self.config.width
    }

    /// Grid height in cells.
    pub fn height(&self) -> (h: usize)
        ensures
            h == self.cfg().height,
    {
        self.config.height
    }

    /// Lower clamp bound for temperatures.
    pub fn min_heat(&self) -> (m: i64)
        ensures
            m == self.cfg().min_heat,
    {
        self.config.min_heat
    }

    /// Upper clamp bound for temperatures.
    pub fn max_heat(&self) -> (m: i64)
        ensures
            m == self.cfg().max_heat,
    {
        self.config.max_heat
    }

    /// Committed temperature of the cell at `(x, y)`, in thousandths of a
    /// degree; always inside the clamp range.
    pub fn temperature(&self, x: usize, y: usize) -> (t: i64)
        requires
            self.wf(),
            x < self.cfg().width,
            y < self.cfg().height,
        ensures
            t == self.temps_seq()[cell_index(self.cfg().width as int, x as int, y as int)],
            self.cfg().min_heat <= t <= self.cfg().max_heat,
    {
        proof {
            lemma_cell_index_range(
                self.config.width as int,
                self.config.height as int,
                x as int,
                y as int,
            );
            assert(self.config.width * self.config.height <= 16_777_216) by (nonlinear_arith)
                requires
                    0 < self.config.width <= 4096,
                    0 < self.config.height <= 4096,
            ;
        }
        let i = grid_index(self.config.width, self.config.height, x, y);
        self.temps[i]
    }

    /// Flux accumulated so far this sweep into the slot of the cell at
    /// `(x, y)`.
    pub fn accumulated_flux(&self, x: usize, y: usize) -> (a: i128)
        requires
            self.wf(),
            x < self.cfg().width,
            y < self.cfg().height,
        ensures
            a == self.acc_seq()[cell_index(self.cfg().width as int, x as int, y as int)],
    {
        proof {
            lemma_cell_index_range(
                self.config.width as int,
                self.config.height as int,
                x as int,
                y as int,
            );
            assert(self.config.width * self.config.height <= 16_777_216) by (nonlinear_arith)
                requires
                    0 < self.config.width <= 4096,
                    0 < self.config.height <= 4096,
            ;
        }
        let i = grid_index(self.config.width, self.config.height, x, y);
        self.acc[i]
    }

    /// Current chunk cursor, in chunk-grid units.
    pub fn chunk_cursor(&self) -> (c: (usize, usize))
        ensures
            c.0 == self.cursor_cx(),
            c.1 == self.cursor_cy(),
    {
        (self.cursor_x, self.cursor_y)
    }

    /// Whether a completed sweep awaits integration.
    pub fn is_sweep_complete(&self) -> (b: bool)
        ensures
            b == self.sweep_complete(),
    {
        self.sweep_done
    }

    /// Accumulates the flux of the chunk under the cursor — every cell of
    /// the chunk against its east and south neighbors — then advances the
    /// cursor in row-major order; wrapping past the last chunk raises the
    /// sweep-complete signal. Temperatures are not touched, and the
    /// accumulator total stays at zero.
    #[verifier::rlimit(60)]
    pub fn accumulate_step(&mut self)
        requires
            old(self).wf(),
            !old(self).sweep_complete(),
        ensures
            final(self).wf(),
            final(self).cfg() == old(self).cfg(),
            final(self).temps_seq() == old(self).temps_seq(),
            final(self).acc_seq().len() == old(self).acc_seq().len(),
            forall|x: int, y: int|
                0 <= x < old(self).cfg().width && 0 <= y < old(self).cfg().height ==> final(self).acc_seq()[#[trigger] cell_index(old(self).cfg().width as int, x, y)] == old(self).acc_seq()[cell_index(old(self).cfg().width as int, x, y)] + old(self).cursor_chunk_delta(x, y),
            sum_i128(final(self).acc_seq()) == sum_i128(old(self).acc_seq()),
            final(self).sweep_complete() <==> cursor_linear(
                old(self).cursor_cx(),
                old(self).cursor_cy(),
                old(self).chunks_x(),
            ) + 1 == old(self).chunks_total(),
            final(self).sweep_complete() ==> final(self).cursor_cx() == 0 && final(self).cursor_cy() == 0,
            !final(self).sweep_complete() ==> cursor_linear(
                final(self).cursor_cx(),
                final(self).cursor_cy(),
                old(self).chunks_x(),
            ) == cursor_linear(old(self).cursor_cx(), old(self).cursor_cy(), old(self).chunks_x())
                + 1,
            final(self).cursor_cx() == (if old(self).cursor_cx() + 1 < old(self).chunks_x() {
                old(self).cursor_cx() + 1
            } else {
                0
            }),
            final(self).cursor_cy() == (if old(self).cursor_cx() + 1 < old(self).chunks_x() {
                old(self).cursor_cy()
            } else if old(self).cursor_cy() + 1 < old(self).chunks_y() {
                old(self).cursor_cy() + 1
            } else {
                0
            }),
    {
        let w = self.config.width;
        let h = self.config.height;
        let c = self.config.chunk_size;
        let ghost cfgg = self.config;
        let ghost temps0 = self.temps@;
        let ghost acc0 = self.acc@;
        let ghost lim = old(self).acc_limit();
        proof {
            assert(w * h <= 16_777_216) by (nonlinear_arith)
                requires
                    0 < w <= 4096,
                    0 < h <= 4096,
            ;
            lemma_chunk_span(w as int, c as int, self.cursor_x as int);
            lemma_chunk_span(h as int, c as int, self.cursor_y as int);
            old(self).lemma_acc_headroom();
        }
        let x0: usize = self.cursor_x * c;
        let x1: usize = if x0 + c <= w {
            x0 + c
        } else {
            w
        };
        let y0: usize = self.cursor_y * c;
        let y1: usize = if y0 + c <= h {
            y0 + c
        } else {
            h
        };
        let ghost gx0 = x0 as int;
        let ghost gx1 = x1 as int;
        let ghost gy0 = y0 as int;
        let ghost gy1 = y1 as int;
        let ghost cx0 = self.cursor_x;
        let ghost cy0 = self.cursor_y;
        let mut px: usize = x0;
        proof {
            assert forall|x: int, y: int| 0 <= x < w && 0 <= y < h implies self.acc@[
            #[trigger] cell_index(w as int, x, y)] == acc0[cell_index(w as int, x, y)]
                + chunk_delta_partial(cfgg, temps0, gx0, gx1, gy0, gy1, gx0, gy0, x, y) by {
                lemma_partial_start(cfgg, temps0, gx0, gx1, gy0, gy1, x, y);
                lemma_cell_index_range(w as int, h as int, x, y);
            }
        }
        while px < x1
            invariant
                cfgg.valid(),
                cfgg == self.config,
                w == cfgg.width,
                h == cfgg.height,
                temps0 == self.temps@,
                temps0.len() == w * h,
                forall|i: int|
                    0 <= i < temps0.len() ==> cfgg.min_heat <= #[trigger] temps0[i]
                        <= cfgg.max_heat,
                self.acc@.len() == w * h,
                acc0.len() == w * h,
                forall|j: int| 0 <= j < acc0.len() ==> -lim <= #[trigger] acc0[j] <= lim,
                0 <= lim,
                lim + 4 * (FLUX_ABS as int) <= ACC_ABS as int,
                self.cursor_x == cx0,
                self.cursor_y == cy0,
                !self.sweep_done,
                gx0 == x0,
                gy0 == y0,
                0 <= gx0 <= px <= x1,
                gx1 == x1 <= w,
                0 <= gy0 <= gy1 == y1 <= h,
                forall|x: int, y: int|
                    0 <= x < w && 0 <= y < h ==> self.acc@[#[trigger] cell_index(w as int, x, y)]
                        == acc0[cell_index(w as int, x, y)] + chunk_delta_partial(
                        cfgg,
                        temps0,
                        gx0,
                        gx1,
                        gy0,
                        gy1,
                        px as int,
                        gy0,
                        x,
                        y,
                    ),
                sum_i128(self.acc@) == sum_i128(acc0),
            decreases x1 - px,
        {
            let mut py: usize = y0;
            while py < y1
                invariant
                    cfgg.valid(),
                    cfgg == self.config,
                    w == cfgg.width,
                    h == cfgg.height,
                    temps0 == self.temps@,
                    temps0.len() == w * h,
                    forall|i: int|
                        0 <= i < temps0.len() ==> cfgg.min_heat <= #[trigger] temps0[i]
                            <= cfgg.max_heat,
                    self.acc@.len() == w * h,
                    acc0.len() == w * h,
                    forall|j: int| 0 <= j < acc0.len() ==> -lim <= #[trigger] acc0[j] <= lim,
                    0 <= lim,
                    lim + 4 * (FLUX_ABS as int) <= ACC_ABS as int,
                    self.cursor_x == cx0,
                    self.cursor_y == cy0,
                    !self.sweep_done,
                    gx0 == x0,
                    gy0 == y0,
                    0 <= gx0 <= px < x1,
                    gx1 == x1 <= w,
                    0 <= gy0 <= py <= y1,
                    gy1 == y1 <= h,
                    forall|x: int, y: int|
                        0 <= x < w && 0 <= y < h ==> self.acc@[#[trigger] cell_index(
                            w as int,
                            x,
                            y,
                        )] == acc0[cell_index(w as int, x, y)] + chunk_delta_partial(
                            cfgg,
                            temps0,
                            gx0,
                            gx1,
                            gy0,
                            gy1,
                            px as int,
                            py as int,
                            x,
                            y,
                        ),
                    sum_i128(self.acc@) == sum_i128(acc0),
                decreases y1 - py,
            {
                proof {
                    assert forall|j: int| 0 <= j < self.acc@.len() implies -ACC_ABS
                        <= #[trigger] self.acc@[j] <= ACC_ABS by {
                        lemma_cell_index_surjective(w as int, h as int, j);
                        let xx = j % (w as int);
                        let yy = j / (w as int);
                        lemma_partial_bound(
                            cfgg,
                            temps0,
                            gx0,
                            gx1,
                            gy0,
                            gy1,
                            px as int,
                            py as int,
                            xx,
                            yy,
                        );
                    }
                }
                let ghost acc_pre = self.acc@;
                accumulate_cell(&self.config, &self.temps, &mut self.acc, px, py);
                proof {
                    assert forall|x: int, y: int| 0 <= x < w && 0 <= y < h implies self.acc@[
                    #[trigger] cell_index(w as int, x, y)] == acc0[cell_index(w as int, x, y)]
                        + chunk_delta_partial(
                        cfgg,
                        temps0,
                        gx0,
                        gx1,
                        gy0,
                        gy1,
                        px as int,
                        py as int + 1,
                        x,
                        y,
                    ) by {
                        lemma_partial_step(
                            cfgg,
                            temps0,
                            gx0,
                            gx1,
                            gy0,
                            gy1,
                            px as int,
                            py as int,
                            x,
                            y,
                        );
                    }
                }
                py = py + 1;
            }
            proof {
                assert forall|x: int, y: int| 0 <= x < w && 0 <= y < h implies self.acc@[
                #[trigger] cell_index(w as int, x, y)] == acc0[cell_index(w as int, x, y)]
                    + chunk_delta_partial(
                    cfgg,
                    temps0,
                    gx0,
                    gx1,
                    gy0,
                    gy1,
                    px as int + 1,
                    gy0,
                    x,
                    y,
                ) by {
                    lemma_partial_column(cfgg, temps0, gx0, gx1, gy0, gy1, px as int, x, y);
                }
            }
            px = px + 1;
        }
        proof {
            assert forall|x: int, y: int| 0 <= x < w && 0 <= y < h implies self.acc@[
            #[trigger] cell_index(w as int, x, y)] == acc0[cell_index(w as int, x, y)]
                + chunk_delta(cfgg, temps0, gx0, gx1, gy0, gy1, x, y) by {
                lemma_partial_complete(cfgg, temps0, gx0, gx1, gy0, gy1, x, y);
            }
            assert forall|j: int| 0 <= j < self.acc@.len() implies -(lim + 4 * (FLUX_ABS as int))
                <= #[trigger] self.acc@[j] <= lim + 4 * (FLUX_ABS as int) by {
                lemma_cell_index_surjective(w as int, h as int, j);
                let xx = j % (w as int);
                let yy = j / (w as int);
                lemma_chunk_delta_bound(cfgg, temps0, gx0, gx1, gy0, gy1, xx, yy);
            }
        }
        let cw = chunks_across_len(w, c);
        let ch = chunks_across_len(h, c);
        let ghost gcw: int = cw as int;
        let ghost gch: int = ch as int;
        let ghost k0: int = (cy0 as int) * gcw + (cx0 as int);
        let ghost total: int = gcw * gch;
        proof {
            lemma_cursor_linear_coords(cx0 as int, cy0 as int, gcw);
        }
        if self.cursor_x + 1 < cw {
            self.cursor_x = self.cursor_x + 1;
            proof {
                assert(k0 + 1 < total) by (nonlinear_arith)
                    requires
                        k0 == (cy0 as int) * gcw + (cx0 as int),
                        total == gcw * gch,
                        0 <= cx0 as int,
                        cx0 as int + 1 < gcw,
                        0 <= cy0 as int,
                        (cy0 as int) < gch,
                ;
                assert(self.accumulated_chunks() == k0 + 1);
            }
        } else if self.cursor_y + 1 < ch {
            self.cursor_x = 0;
            self.cursor_y = self.cursor_y + 1;
            proof {
                assert((cy0 as int + 1) * gcw == (cy0 as int) * gcw + gcw) by (nonlinear_arith);
                assert(k0 + 1 < total) by (nonlinear_arith)
                    requires
                        k0 + 1 == (cy0 as int + 1) * gcw,
                        total == gcw * gch,
                        0 < gcw,
                        cy0 as int + 1 < gch,
                ;
                assert(self.accumulated_chunks() == k0 + 1);
            }
        } else {
            self.cursor_x = 0;
            self.cursor_y = 0;
            self.sweep_done = true;
            proof {
                assert(k0 + 1 == total) by (nonlinear_arith)
                    requires
                        k0 == (cy0 as int) * gcw + (cx0 as int),
                        total == gcw * gch,
                        cx0 as int + 1 == gcw,
                        cy0 as int + 1 == gch,
                ;
                assert(self.accumulated_chunks() == total);
                assert(self.accumulated_chunks() == k0 + 1);
            }
        }
        proof {
            assert(lim == 4 * (FLUX_ABS as int) * k0);
            assert(self.acc_limit() == 4 * (FLUX_ABS as int) * (k0 + 1));
            assert(4 * (FLUX_ABS as int) * (k0 + 1) == 4 * (FLUX_ABS as int) * k0 + 4 * (
            FLUX_ABS as int)) by (nonlinear_arith);
        }
    }
    /// If the scheduler has signalled a completed sweep, commits it: every
    /// cell's accumulated flux becomes a temperature delta scaled by the
    /// heat transfer speed and the tick length and divided by the thermal
    /// mass, the result is clamped to the configured range, and the
    /// accumulator is cleared for the next sweep. Otherwise does nothing.
    /// Runs at most once per sweep: the signal is consumed.
    pub fn integrate_step(&mut self, dt_ms: u64) -> (integrated: bool)
        requires
            old(self).wf(),
            dt_ms <= TICK_MILLIS_LIMIT,
        ensures
            final(self).wf(),
            final(self).cfg() == old(self).cfg(),
            integrated == old(self).sweep_complete(),
            !final(self).sweep_complete(),
            final(self).cursor_cx() == old(self).cursor_cx(),
            final(self).cursor_cy() == old(self).cursor_cy(),
            final(self).temps_seq().len() == old(self).temps_seq().len(),
            final(self).acc_seq().len() == old(self).acc_seq().len(),
            !old(self).sweep_complete() ==> final(self).temps_seq() == old(self).temps_seq()
                && final(self).acc_seq() == old(self).acc_seq(),
            old(self).sweep_complete() ==> forall|i: int|
                0 <= i < old(self).temps_seq().len() ==> final(self).temps_seq()[i]
                    == integrate_cell_spec(
                    old(self).cfg(),
                    #[trigger] old(self).temps_seq()[i] as int,
                    old(self).acc_seq()[i] as int,
                    dt_ms as int,
                ),
            old(self).sweep_complete() ==> forall|j: int|
                0 <= j < old(self).acc_seq().len() ==> final(self).acc_seq()[j] == 0,
    {
        if !self.sweep_done {
            return false;
        }
        let cfg = self.config;
        let ghost temps0 = self.temps@;
        let ghost acc0 = self.acc@;
        proof {
            old(self).lemma_acc_limit_le();
            assert((cfg.mass_capacity as int) * (FLUX_UNIT as int) <= 10_000_000_000_000_000_000)
                by (nonlinear_arith)
                requires
                    0 < cfg.mass_capacity <= 1_000_000_000,
            ;
            assert(0 < (cfg.mass_capacity as int) * (FLUX_UNIT as int)) by (nonlinear_arith)
                requires
                    0 < cfg.mass_capacity,
            ;
        }
        let divisor: i128 = (cfg.mass_capacity as i128) * (FLUX_UNIT as i128);
        let n = self.temps.len();
        let mut i: usize = 0;
        while i < n
            invariant
                cfg == self.config,
                cfg.valid(),
                self.temps@.len() == n,
                self.acc@.len() == n,
                temps0.len() == n,
                acc0.len() == n,
                i <= n,
                self.sweep_done,
                self.cursor_x == old(self).cursor_cx(),
                self.cursor_y == old(self).cursor_cy(),
                dt_ms <= TICK_MILLIS_LIMIT,
                divisor == (cfg.mass_capacity as int) * (FLUX_UNIT as int),
                0 < divisor <= 10_000_000_000_000_000_000,
                forall|k: int|
                    0 <= k < temps0.len() ==> cfg.min_heat <= #[trigger] temps0[k]
                        <= cfg.max_heat,
                forall|k: int| 0 <= k < acc0.len() ==> -ACC_ABS <= #[trigger] acc0[k] <= ACC_ABS,
                forall|k: int|
                    0 <= k < i ==> #[trigger] self.temps@[k] == integrate_cell_spec(
                        cfg,
                        temps0[k] as int,
                        acc0[k] as int,
                        dt_ms as int,
                    ),
                forall|k: int|
                    0 <= k < i ==> cfg.min_heat <= #[trigger] self.temps@[k] <= cfg.max_heat,
                forall|k: int| 0 <= k < i ==> #[trigger] self.acc@[k] == 0,
                forall|k: int| i <= k < n ==> #[trigger] self.temps@[k] == temps0[k],
                forall|k: int| i <= k < n ==> #[trigger] self.acc@[k] == acc0[k],
            decreases n - i,
        {
            let a: i128 = self.acc[i];
            let t: i64 = self.temps[i];
            proof {
                crate::flux::lemma_mul_abs_bound(
                    a as int,
                    ACC_ABS as int,
                    cfg.heat_speed as int,
                    1_000_000,
                );
                crate::flux::lemma_mul_abs_bound(
                    (a as int) * (cfg.heat_speed as int),
                    (ACC_ABS as int) * 1_000_000,
                    dt_ms as int,
                    3_600_000,
                );
            }
            let num: i128 = a * (cfg.heat_speed as i128) * (dt_ms as i128);
            proof {
                assert((ACC_ABS as int) * 1_000_000 * 3_600_000 <= (ACC_ABS as int) * 1_000_000
                    * 3_600_000 * divisor) by (nonlinear_arith)
                    requires
                        0 < divisor,
                ;
                crate::flux::lemma_div_trunc_bound(
                    num as int,
                    divisor as int,
                    (ACC_ABS as int) * 1_000_000 * 3_600_000,
                );
            }
            let d: i128 = crate::flux::div_trunc_i128(num, divisor);
            let wide: i128 = (t as i128) + d;
            let lo: i128 = cfg.min_heat as i128;
            let hi: i128 = cfg.max_heat as i128;
            let clamped: i128 = if wide < lo {
                lo
            } else if wide > hi {
                hi
            } else {
                wide
            };
            let ct: i64 = clamped as i64;
            self.temps.set(i, ct);
            self.acc.set(i, 0);
            i = i + 1;
        }
        self.sweep_done = false;
        proof {
            lemma_sum_zero(self.acc@);
            lemma_cursor_linear_coords(0, 0, (*self).chunks_x());
        }
        true
    }

    /// One simulation tick: accumulates the chunk under the cursor, advances
    /// the cursor, and, exactly when that completes a sweep, integrates the
    /// whole accumulated field into the temperatures and clears the
    /// accumulator. Returns whether integration ran.
    pub fn tick(&mut self, dt_ms: u64) -> (integrated: bool)
        requires
            old(self).wf(),
            !old(self).sweep_complete(),
            dt_ms <= TICK_MILLIS_LIMIT,
        ensures
            final(self).wf(),
            final(self).cfg() == old(self).cfg(),
            !final(self).sweep_complete(),
            final(self).temps_seq().len() == old(self).temps_seq().len(),
            final(self).acc_seq().len() == old(self).acc_seq().len(),
            integrated <==> cursor_linear(
                old(self).cursor_cx(),
                old(self).cursor_cy(),
                old(self).chunks_x(),
            ) + 1 == old(self).chunks_total(),
            final(self).cursor_cx() == (if old(self).cursor_cx() + 1 < old(self).chunks_x() {
                old(self).cursor_cx() + 1
            } else {
                0
            }),
            final(self).cursor_cy() == (if old(self).cursor_cx() + 1 < old(self).chunks_x() {
                old(self).cursor_cy()
            } else if old(self).cursor_cy() + 1 < old(self).chunks_y() {
                old(self).cursor_cy() + 1
            } else {
                0
            }),
            !integrated ==> cursor_linear(
                final(self).cursor_cx(),
                final(self).cursor_cy(),
                old(self).chunks_x(),
            ) == cursor_linear(
                old(self).cursor_cx(),
                old(self).cursor_cy(),
                old(self).chunks_x(),
            ) + 1,
            integrated ==> final(self).cursor_cx() == 0 && final(self).cursor_cy() == 0,
            !integrated ==> final(self).temps_seq() == old(self).temps_seq(),
            !integrated ==> forall|x: int, y: int|
                0 <= x < old(self).cfg().width && 0 <= y < old(self).cfg().height ==> final(self).acc_seq()[#[trigger] cell_index(old(self).cfg().width as int, x, y)] == old(self).acc_seq()[cell_index(old(self).cfg().width as int, x, y)] + old(self).cursor_chunk_delta(x, y),
            integrated ==> forall|x: int, y: int|
                0 <= x < old(self).cfg().width && 0 <= y < old(self).cfg().height ==> final(self).temps_seq()[#[trigger] cell_index(old(self).cfg().width as int, x, y)]
                    == integrate_cell_spec(
                    old(self).cfg(),
                    old(self).temps_seq()[cell_index(old(self).cfg().width as int, x, y)] as int,
                    old(self).acc_seq()[cell_index(old(self).cfg().width as int, x, y)] + old(self).cursor_chunk_delta(x, y),
                    dt_ms as int,
                ),
            integrated ==> forall|j: int|
                0 <= j < final(self).acc_seq().len() ==> final(self).acc_seq()[j] == 0,
            sum_i128(final(self).acc_seq()) == 0,
    {
        self.accumulate_step();
        let ghost mid = *self;
        let integrated = self.integrate_step(dt_ms);
        proof {
            if integrated {
                assert forall|x: int, y: int|
                    0 <= x < old(self).cfg().width && 0 <= y < old(self).cfg().height implies {
                    &&& self.temps@[#[trigger] cell_index(old(self).cfg().width as int, x, y)]
                        == integrate_cell_spec(
                        old(self).cfg(),
                        old(self).temps_seq()[cell_index(old(self).cfg().width as int, x, y)] as int,
                        old(self).acc_seq()[cell_index(old(self).cfg().width as int, x, y)] + old(self).cursor_chunk_delta(x, y),
                        dt_ms as int,
                    )
                } by {
                    lemma_cell_index_range(
                        old(self).cfg().width as int,
                        old(self).cfg().height as int,
                        x,
                        y,
                    );
                }
            }
        }
        integrated
    }

    /// What accumulating the chunk under this solver's cursor adds to the
    /// accumulator slot of the cell at `(x, y)`.
    pub open spec fn cursor_chunk_delta(self, x: int, y: int) -> int {
        chunk_delta(
            self.cfg(),
            self.temps_seq(),
            chunk_lo(self.cursor_cx(), self.cfg().chunk_size as int),
            chunk_hi(self.cursor_cx(), self.cfg().chunk_size as int, self.cfg().width as int),
            chunk_lo(self.cursor_cy(), self.cfg().chunk_size as int),
            chunk_hi(self.cursor_cy(), self.cfg().chunk_size as int, self.cfg().height as int),
            x,
            y,
        )
    }
}

/// Equilibrium: over a uniform temperature field every chunk accumulates
/// zero flux into every cell, and integrating a zero accumulator slot
/// returns the temperature unchanged — so by the tick contract a uniform
/// field, whose accumulator starts at zero, stays exactly the same through
/// any number of ticks and sweeps.
pub proof fn lemma_equilibrium(cfg: Config, temps: Seq<i64>, t0: i64, dt: int)
    requires
        cfg.valid(),
        cfg.min_heat <= t0 <= cfg.max_heat,
        temps.len() == cfg.width * cfg.height,
        forall|i: int| 0 <= i < temps.len() ==> #[trigger] temps[i] == t0,
        0 <= dt,
    ensures
        forall|x0: int, x1: int, y0: int, y1: int, x: int, y: int|
            0 <= x < cfg.width && 0 <= y < cfg.height ==> #[trigger] chunk_delta(
                cfg,
                temps,
                x0,
                x1,
                y0,
                y1,
                x,
                y,
            ) == 0,
        integrate_cell_spec(cfg, t0 as int, 0, dt) == t0,
{
    crate::flux::lemma_equal_temperatures_no_flux(cfg, t0 as int);
    assert forall|x: int, y: int| 0 <= x < cfg.width && 0 <= y < cfg.height implies east_flux(
        cfg,
        temps,
        x,
        y,
    ) == 0 && south_flux(cfg, temps, x, y) == 0 by {
        lemma_cell_index_range(cfg.width as int, cfg.height as int, x, y);
        if x + 1 < cfg.width {
            lemma_cell_index_range(cfg.width as int, cfg.height as int, x + 1, y);
        }
        if y + 1 < cfg.height {
            lemma_cell_index_range(cfg.width as int, cfg.height as int, x, y + 1);
        }
    }
    assert forall|x0: int, x1: int, y0: int, y1: int, x: int, y: int|
        0 <= x < cfg.width && 0 <= y < cfg.height implies #[trigger] chunk_delta(
        cfg,
        temps,
        x0,
        x1,
        y0,
        y1,
        x,
        y,
    ) == 0 by {
        assert(east_flux(cfg, temps, x, y) == 0 && south_flux(cfg, temps, x, y) == 0);
        if 0 < x && in_rect(x - 1, y, x0, x1, y0, y1) {
            assert(east_flux(cfg, temps, x - 1, y) == 0);
        }
        if 0 < y && in_rect(x, y - 1, x0, x1, y0, y1) {
            assert(south_flux(cfg, temps, x, y - 1) == 0);
        }
    }
    assert(0 < cfg.mass_capacity * FLUX_UNIT) by (nonlinear_arith)
        requires
            0 < cfg.mass_capacity,
    ;
    assert(0 * cfg.heat_speed * dt == 0) by (nonlinear_arith);
    crate::flux::lemma_div_trunc_zero(cfg.mass_capacity * FLUX_UNIT);
}

} // verus!
