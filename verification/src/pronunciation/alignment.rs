//! The banded dynamic-time-warping alignment engine.

pub mod dictionary;
pub mod dtw;
pub mod templates;

use vstd::prelude::*;

use crate::pronunciation::{series_wf, AlignedPhoneme, AlignmentReport, AlignmentWeights,
    PronunciationError, PronunciationFeatures, FEATURE_LIMIT, MAX_FRAMES, MAX_WIDTH};
use crate::pronunciation::metrics::{clamp_unit, clamp_unit_x};
use crate::num::{copy_vec, div_floor};
use crate::text::{format_u64, push_char, spec_decimal};

verus! {

/// Frame hop of the feature stream, in milliseconds.
pub const FRAME_HOP_MS: u64 = 10;

/// Half-width of the Sakoe-Chiba band: only cells with
/// `|row - col| <= band` are populated.
pub const DEFAULT_WARP_BAND: usize = 20;

/// Path steps folded into one reported segment.
pub const DEFAULT_SEGMENT_FRAMES: usize = 18;

/// Ceiling on a per-frame cost, in milli-units (6.0 in real terms).
pub const COST_NORMALISER: i64 = 6000;

/// Absolute value.
pub open spec fn abs(v: int) -> int {
    if v < 0 {
        -v
    } else {
        v
    }
}

/// Sum of absolute differences of the first `n` paired entries.
pub open spec fn sum_abs_diff(a: Seq<i64>, b: Seq<i64>, n: int) -> int
    decreases n,
{
    if n <= 0 {
        0int
    } else {
        sum_abs_diff(a, b, n - 1) + abs(a[n - 1] - b[n - 1])
    }
}

/// Mean absolute difference over the shared prefix of two rows (0 when
/// either is empty), truncated to whole milli-units.
pub open spec fn mean_abs_spec(a: Seq<i64>, b: Seq<i64>) -> int {
    let n = if a.len() <= b.len() {
        a.len() as int
    } else {
        b.len() as int
    };
    if n == 0 {
        0int
    } else {
        sum_abs_diff(a, b, n) / n
    }
}

proof fn lemma_sum_abs_diff_bounds(a: Seq<i64>, b: Seq<i64>, n: int)
    requires
        0 <= n <= a.len(),
        n <= b.len(),
        forall|i: int| 0 <= i < a.len() ==> -FEATURE_LIMIT <= #[trigger] a[i] <= FEATURE_LIMIT,
        forall|i: int| 0 <= i < b.len() ==> -FEATURE_LIMIT <= #[trigger] b[i] <= FEATURE_LIMIT,
    ensures
        0 <= sum_abs_diff(a, b, n) <= n * (2 * FEATURE_LIMIT),
    decreases n,
{
    if n > 0 {
        lemma_sum_abs_diff_bounds(a, b, n - 1);
        assert((n - 1) * (2 * FEATURE_LIMIT) + 2 * FEATURE_LIMIT == n * (2 * FEATURE_LIMIT))
            by (nonlinear_arith);
    } else {
        assert(n * (2 * FEATURE_LIMIT) == 0) by (nonlinear_arith)
            requires
                n == 0;
    }
}

/// Mean absolute difference of two bounded rows is within [0, 2000000].
pub proof fn lemma_mean_abs_bounds(a: Seq<i64>, b: Seq<i64>)
    requires
        forall|i: int| 0 <= i < a.len() ==> -FEATURE_LIMIT <= #[trigger] a[i] <= FEATURE_LIMIT,
        forall|i: int| 0 <= i < b.len() ==> -FEATURE_LIMIT <= #[trigger] b[i] <= FEATURE_LIMIT,
    ensures
        0 <= mean_abs_spec(a, b) <= 2 * FEATURE_LIMIT,
{
    let n = if a.len() <= b.len() {
        a.len() as int
    } else {
        b.len() as int
    };
    if n > 0 {
        lemma_sum_abs_diff_bounds(a, b, n);
        vstd::arithmetic::div_mod::lemma_div_is_ordered(
            sum_abs_diff(a, b, n),
            n * (2 * FEATURE_LIMIT),
            n,
        );
        assert(n * (2 * FEATURE_LIMIT) / n == 2 * FEATURE_LIMIT) by (nonlinear_arith)
            requires
                n > 0;
        vstd::arithmetic::div_mod::lemma_div_pos_is_pos(sum_abs_diff(a, b, n), n);
    }
}

/// Mean absolute difference over the shared prefix of two rows.
pub fn mean_abs(a: &Vec<i64>, b: &Vec<i64>) -> (r: i64)
    requires
        series_wf(a@),
        series_wf(b@),
        a@.len() <= MAX_WIDTH || b@.len() <= MAX_WIDTH,
    ensures
        r == mean_abs_spec(a@, b@),
        0 <= r <= 2 * FEATURE_LIMIT,
{
    let n = if a.len() <= b.len() {
        a.len()
    } else {
        b.len()
    };
    if n == 0 {
        return 0;
    }
    let mut sum: i64 = 0;
    for k in 0..n
        invariant
            n <= a@.len(),
            n <= b@.len(),
            n <= MAX_WIDTH,
            series_wf(a@),
            series_wf(b@),
            sum == sum_abs_diff(a@, b@, k as int),
            0 <= sum <= k * (2 * FEATURE_LIMIT),
    {
        proof {
            assert(k as int * (2 * FEATURE_LIMIT) <= MAX_WIDTH * (2 * FEATURE_LIMIT))
                by (nonlinear_arith)
                requires
                    0 <= (k as int) <= MAX_WIDTH;
        }
        let d = a[k] - b[k];
        let d_abs = if d < 0 {
            -d
        } else {
            d
        };
        sum = sum + d_abs;
        proof {
            assert(k * (2 * FEATURE_LIMIT) + 2 * FEATURE_LIMIT == (k + 1) * (2 * FEATURE_LIMIT))
                by (nonlinear_arith);
        }
    }
    proof {
        lemma_mean_abs_bounds(a@, b@);
    }
    sum / (n as i64)
}

/// The weighted per-frame distance before the ceiling, in micro-units:
/// each mean absolute difference (milli) times its weight (milli).
pub open spec fn weighted_sum_spec(
    r: PronunciationFeatures,
    l: PronunciationFeatures,
    w: AlignmentWeights,
    row: int,
    col: int,
) -> int {
    mean_abs_spec(r.mfcc@[row]@, l.mfcc@[col]@) * w.mfcc + mean_abs_spec(
        r.deltas@[row]@,
        l.deltas@[col]@,
    ) * w.delta + mean_abs_spec(r.delta_deltas@[row]@, l.delta_deltas@[col]@) * w.delta_delta
        + mean_abs_spec(r.mel_spectrogram@[row]@, l.mel_spectrogram@[col]@) * w.mel + abs(
        r.energy@[row] - l.energy@[col],
    ) * w.energy + abs(r.spectral_flux@[row] - l.spectral_flux@[col]) * w.flux
}

/// The local cost of aligning reference frame `row` with learner frame
/// `col`: the weighted distance scaled back to milli-units and clamped to
/// the cost ceiling.
pub open spec fn frame_cost_spec(
    r: PronunciationFeatures,
    l: PronunciationFeatures,
    w: AlignmentWeights,
    row: int,
    col: int,
) -> int {
    let c = weighted_sum_spec(r, l, w, row, col) / 1000;
    if c <= COST_NORMALISER {
        c
    } else {
        COST_NORMALISER as int
    }
}

proof fn lemma_weigh_bound(m: int, w: int)
    requires
        0 <= m <= 2 * FEATURE_LIMIT,
        0 <= w <= FEATURE_LIMIT,
    ensures
        0 <= m * w <= 2_000_000_000_000,
{
    assert(0 <= m * w <= 2_000_000_000_000) by (nonlinear_arith)
        requires
            0 <= m <= 2 * FEATURE_LIMIT,
            0 <= w <= FEATURE_LIMIT;
}

/// Per-frame costs are non-negative and never exceed the ceiling.
pub proof fn lemma_frame_cost_bounds(
    r: PronunciationFeatures,
    l: PronunciationFeatures,
    w: AlignmentWeights,
    row: int,
    col: int,
)
    requires
        r.wf(),
        l.wf(),
        w.wf(),
        0 <= row < r.frame_count,
        0 <= col < l.frame_count,
    ensures
        0 <= frame_cost_spec(r, l, w, row, col) <= COST_NORMALISER,
        0 <= weighted_sum_spec(r, l, w, row, col) <= 13_000_000_000_000,
{
    lemma_mean_abs_bounds(r.mfcc@[row]@, l.mfcc@[col]@);
    lemma_mean_abs_bounds(r.deltas@[row]@, l.deltas@[col]@);
    lemma_mean_abs_bounds(r.delta_deltas@[row]@, l.delta_deltas@[col]@);
    lemma_mean_abs_bounds(r.mel_spectrogram@[row]@, l.mel_spectrogram@[col]@);
    lemma_weigh_bound(mean_abs_spec(r.mfcc@[row]@, l.mfcc@[col]@), w.mfcc as int);
    lemma_weigh_bound(mean_abs_spec(r.deltas@[row]@, l.deltas@[col]@), w.delta as int);
    lemma_weigh_bound(mean_abs_spec(r.delta_deltas@[row]@, l.delta_deltas@[col]@),
        w.delta_delta as int);
    lemma_weigh_bound(mean_abs_spec(r.mel_spectrogram@[row]@, l.mel_spectrogram@[col]@),
        w.mel as int);
    lemma_weigh_bound(abs(r.energy@[row] - l.energy@[col]), w.energy as int);
    lemma_weigh_bound(abs(r.spectral_flux@[row] - l.spectral_flux@[col]), w.flux as int);
    let we = weighted_sum_spec(r, l, w, row, col);
    vstd::arithmetic::div_mod::lemma_div_pos_is_pos(we, 1000);
}

/// One weighted term of the per-frame distance.
fn weigh(mean: i64, weight: u32) -> (r: i64)
    requires
        0 <= mean <= 2 * FEATURE_LIMIT,
        weight <= FEATURE_LIMIT,
    ensures
        r == mean * weight,
        0 <= r <= 2_000_000_000_000,
{
    proof {
        assert(0 <= mean * weight <= 2_000_000_000_000) by (nonlinear_arith)
            requires
                0 <= mean <= 2 * FEATURE_LIMIT,
                0 <= weight <= FEATURE_LIMIT;
    }
    mean * (weight as i64)
}

/// The local cost of aligning reference frame `row` with learner frame
/// `col`.
pub fn frame_cost(
    r: &PronunciationFeatures,
    l: &PronunciationFeatures,
    row: usize,
    col: usize,
    w: &AlignmentWeights,
) -> (c: i64)
    requires
        r.wf(),
        l.wf(),
        w.wf(),
        row < r.frame_count,
        col < l.frame_count,
    ensures
        c == frame_cost_spec(*r, *l, *w, row as int, col as int),
        0 <= c <= COST_NORMALISER,
{
    proof {
        lemma_frame_cost_bounds(*r, *l, *w, row as int, col as int);
    }
    let mfcc = mean_abs(&r.mfcc[row], &l.mfcc[col]);
    let delta = mean_abs(&r.deltas[row], &l.deltas[col]);
    let delta_delta = mean_abs(&r.delta_deltas[row], &l.delta_deltas[col]);
    let mel = mean_abs(&r.mel_spectrogram[row], &l.mel_spectrogram[col]);
    let energy_diff = r.energy[row] - l.energy[col];
    let energy = if energy_diff < 0 {
        -energy_diff
    } else {
        energy_diff
    };
    let flux_diff = r.spectral_flux[row] - l.spectral_flux[col];
    let flux = if flux_diff < 0 {
        -flux_diff
    } else {
        flux_diff
    };
    let weighted: i64 = weigh(mfcc, w.mfcc) + weigh(delta, w.delta) + weigh(
        delta_delta,
        w.delta_delta,
    ) + weigh(mel, w.mel) + weigh(energy, w.energy) + weigh(flux, w.flux);
    let c = weighted / 1000;
    if c <= COST_NORMALISER {
        c
    } else {
        COST_NORMALISER
    }
}

/// Whether a grid cell lies inside the Sakoe-Chiba band.
pub open spec fn in_band(row: int, col: int, band: int) -> bool {
    abs(row - col) <= band
}

/// Minimum of two optional costs; `None` stands for an unreachable cell.
pub open spec fn opt_min(a: Option<int>, b: Option<int>) -> Option<int> {
    match (a, b) {
        (Option::None, x) => x,
        (Option::Some(x), Option::None) => Some(x),
        (Option::Some(x), Option::Some(y)) => Some(
            if x <= y {
                x
            } else {
                y
            },
        ),
    }
}

/// The banded dynamic program: the cumulative cost of the cheapest
/// monotone in-band path from the origin to `(row, col)`, or `None` when
/// the cell is outside the grid or the band.
pub open spec fn cell_cost_spec(
    r: PronunciationFeatures,
    l: PronunciationFeatures,
    w: AlignmentWeights,
    band: int,
    row: int,
    col: int,
) -> Option<int>
    decreases row + col,
{
    if !(0 <= row < r.frame_count && 0 <= col < l.frame_count) || !in_band(row, col, band) {
        None
    } else if row == 0 && col == 0 {
        Some(frame_cost_spec(r, l, w, 0, 0))
    } else {
        let diag = if row > 0 && col > 0 {
            cell_cost_spec(r, l, w, band, row - 1, col - 1)
        } else {
            None
        };
        let up = if row > 0 {
            cell_cost_spec(r, l, w, band, row - 1, col)
        } else {
            None
        };
        let left = if col > 0 {
            cell_cost_spec(r, l, w, band, row, col - 1)
        } else {
            None
        };
        match opt_min(opt_min(diag, up), left) {
            Option::None => None,
            Option::Some(best) => Some(frame_cost_spec(r, l, w, row, col) + best),
        }
    }
}

/// Cumulative costs are non-negative and grow by at most the ceiling per
/// step.
pub proof fn lemma_cell_cost_bounds(
    r: PronunciationFeatures,
    l: PronunciationFeatures,
    w: AlignmentWeights,
    band: int,
    row: int,
    col: int,
)
    requires
        r.wf(),
        l.wf(),
        w.wf(),
        0 <= row,
        0 <= col,
    ensures
        cell_cost_spec(r, l, w, band, row, col) matches Some(v) ==> 0 <= v <= (row + col + 1)
            * COST_NORMALISER,
    decreases row + col,
{
    if cell_cost_spec(r, l, w, band, row, col) is Some {
        lemma_frame_cost_bounds(r, l, w, row, col);
        if !(row == 0 && col == 0) {
            if row > 0 && col > 0 {
                lemma_cell_cost_bounds(r, l, w, band, row - 1, col - 1);
            }
            if row > 0 {
                lemma_cell_cost_bounds(r, l, w, band, row - 1, col);
            }
            if col > 0 {
                lemma_cell_cost_bounds(r, l, w, band, row, col - 1);
            }
            assert((row + col - 1) * COST_NORMALISER <= (row + col) * COST_NORMALISER
                && (row + col) * COST_NORMALISER + COST_NORMALISER == (row + col + 1)
                * COST_NORMALISER) by (nonlinear_arith)
                requires
                    row + col >= 1;
        }
    }
}

/// Every in-band cell of a nonempty grid is reachable: the diagonal chain
/// toward the origin stays inside the band.
pub proof fn lemma_in_band_reachable(
    r: PronunciationFeatures,
    l: PronunciationFeatures,
    w: AlignmentWeights,
    band: int,
    row: int,
    col: int,
)
    requires
        r.wf(),
        l.wf(),
        w.wf(),
        band >= 0,
        0 <= row < r.frame_count,
        0 <= col < l.frame_count,
        in_band(row, col, band),
    ensures
        cell_cost_spec(r, l, w, band, row, col) is Some,
    decreases row + col,
{
    if row == 0 && col == 0 {
    } else if row > 0 && col > 0 {
        lemma_in_band_reachable(r, l, w, band, row - 1, col - 1);
    } else if row == 0 {
        lemma_in_band_reachable(r, l, w, band, 0, col - 1);
    } else {
        lemma_in_band_reachable(r, l, w, band, row - 1, 0);
    }
}

/// Which neighbour a cell's cumulative cost came from.
#[derive(Debug, Clone, Copy, PartialEq, Eq, Structural)]
pub enum Direction {
    Origin,
    Diagonal,
    Up,
    Left,
}

/// One cell of the banded cost grid. `valid` marks reachable in-band
/// cells; unreachable cells stand for infinite cost.
#[derive(Debug, Clone, Copy)]
pub struct Cell {
    pub valid: bool,
    pub cost: i64,
    pub local: i64,
    pub direction: Direction,
}

impl Cell {
    /// The placeholder for an unreachable or out-of-band cell.
    pub fn invalid() -> (c: Cell)
        ensures
            !c.valid,
    {
        Cell { valid: false, cost: 0, local: 0, direction: Direction::Origin }
    }
}

/// The recorded direction points at a reachable predecessor whose
/// cumulative cost explains this cell's.
pub open spec fn dir_ok(
    r: PronunciationFeatures,
    l: PronunciationFeatures,
    w: AlignmentWeights,
    band: int,
    c: Cell,
    row: int,
    col: int,
) -> bool {
    if row == 0 && col == 0 {
        c.direction == Direction::Origin
    } else {
        match c.direction {
            Direction::Origin => false,
            Direction::Diagonal => row > 0 && col > 0 && (cell_cost_spec(
                r,
                l,
                w,
                band,
                row - 1,
                col - 1,
            ) matches Some(p) && c.cost == c.local + p),
            Direction::Up => row > 0 && (cell_cost_spec(r, l, w, band, row - 1, col) matches Some(
                p,
            ) && c.cost == c.local + p),
            Direction::Left => col > 0 && (cell_cost_spec(r, l, w, band, row, col - 1) matches Some(
                p,
            ) && c.cost == c.local + p),
        }
    }
}

/// A populated cell agrees with the dynamic program.
pub open spec fn cell_ok(
    r: PronunciationFeatures,
    l: PronunciationFeatures,
    w: AlignmentWeights,
    band: int,
    c: Cell,
    row: int,
    col: int,
) -> bool {
    &&& c.valid == cell_cost_spec(r, l, w, band, row, col) is Some
    &&& c.valid ==> cell_cost_spec(r, l, w, band, row, col) == Some(c.cost as int)
    &&& c.valid ==> c.local == frame_cost_spec(r, l, w, row, col)
    &&& c.valid ==> dir_ok(r, l, w, band, c, row, col)
}

/// The rows built so far agree with the dynamic program.
pub open spec fn rows_ok(
    r: PronunciationFeatures,
    l: PronunciationFeatures,
    w: AlignmentWeights,
    band: int,
    g: Seq<Vec<Cell>>,
) -> bool {
    &&& forall|i: int| 0 <= i < g.len() ==> (#[trigger] g[i])@.len() == l.frame_count
    &&& forall|i: int, j: int|
        0 <= i < g.len() && 0 <= j < g[i]@.len() ==> cell_ok(r, l, w, band, #[trigger] g[i]@[j], i, j)
}

/// The whole grid agrees with the dynamic program.
pub open spec fn grid_ok(
    r: PronunciationFeatures,
    l: PronunciationFeatures,
    w: AlignmentWeights,
    band: int,
    g: Seq<Vec<Cell>>,
) -> bool {
    &&& g.len() == r.frame_count
    &&& rows_ok(r, l, w, band, g)
}

/// Computes one cell from its predecessors, mirroring the recurrence.
/// `prev` holds the finished rows above; `cur` the cells of this row to
/// the left of `col`.
fn update_cell(
    r: &PronunciationFeatures,
    l: &PronunciationFeatures,
    w: &AlignmentWeights,
    band: usize,
    prev: &Vec<Vec<Cell>>,
    cur: &Vec<Cell>,
    row: usize,
    col: usize,
) -> (c: Cell)
    requires
        r.wf(),
        l.wf(),
        w.wf(),
        row < r.frame_count,
        col < l.frame_count,
        in_band(row as int, col as int, band as int),
        prev@.len() == row,
        rows_ok(*r, *l, *w, band as int, prev@),
        cur@.len() >= col,
        forall|j: int|
            0 <= j < col ==> cell_ok(*r, *l, *w, band as int, #[trigger] cur@[j], row as int, j),
    ensures
        cell_ok(*r, *l, *w, band as int, c, row as int, col as int),
{
    let local = frame_cost(r, l, row, col, w);
    if row == 0 && col == 0 {
        return Cell { valid: true, cost: local, local, direction: Direction::Origin };
    }
    proof {
        if row > 0 && col > 0 {
            lemma_cell_cost_bounds(*r, *l, *w, band as int, row as int - 1, col as int - 1);
        }
        if row > 0 {
            lemma_cell_cost_bounds(*r, *l, *w, band as int, row as int - 1, col as int);
        }
        if col > 0 {
            lemma_cell_cost_bounds(*r, *l, *w, band as int, row as int, col as int - 1);
        }
        assert((row + col - 1) * COST_NORMALISER <= (2 * MAX_FRAMES) * COST_NORMALISER
            && (2 * MAX_FRAMES) * COST_NORMALISER == 1_200_000_000) by (nonlinear_arith)
            requires
                0 <= row + col - 1 <= 2 * MAX_FRAMES;
    }
    let mut best_cost: i64 = 0;
    let mut best_dir = Direction::Origin;
    let mut found = false;
    if row > 0 && col > 0 {
        let p = &prev[row - 1][col - 1];
        if p.valid {
            best_cost = p.cost;
            best_dir = Direction::Diagonal;
            found = true;
        }
    }
    if row > 0 {
        let p = &prev[row - 1][col];
        if p.valid && (!found || p.cost < best_cost) {
            best_cost = p.cost;
            best_dir = Direction::Up;
            found = true;
        }
    }
    if col > 0 {
        let p = &cur[col - 1];
        if p.valid && (!found || p.cost < best_cost) {
            best_cost = p.cost;
            best_dir = Direction::Left;
            found = true;
        }
    }
    if !found {
        return Cell::invalid();
    }
    Cell { valid: true, cost: local + best_cost, local, direction: best_dir }
}

/// Builds one grid row: in-band cells carry the recurrence, the rest are
/// unreachable.
fn build_row(
    r: &PronunciationFeatures,
    l: &PronunciationFeatures,
    w: &AlignmentWeights,
    band: usize,
    prev: &Vec<Vec<Cell>>,
    row: usize,
) -> (out: Vec<Cell>)
    requires
        r.wf(),
        l.wf(),
        w.wf(),
        band <= 1_000_000,
        row < r.frame_count,
        prev@.len() == row,
        rows_ok(*r, *l, *w, band as int, prev@),
    ensures
        out@.len() == l.frame_count,
        forall|j: int|
            0 <= j < out@.len() ==> cell_ok(*r, *l, *w, band as int, #[trigger] out@[j],
                row as int, j),
{
    let cols = l.frame_count;
    let mut out: Vec<Cell> = Vec::new();
    let start: usize = if row > band {
        row - band
    } else {
        0
    };
    for j in 0..cols
        invariant
            r.wf(),
            l.wf(),
            w.wf(),
            band <= 1_000_000,
            row < r.frame_count,
            cols == l.frame_count,
            prev@.len() == row,
            rows_ok(*r, *l, *w, band as int, prev@),
            start == if row > band {
                (row - band) as usize
            } else {
                0usize
            },
            out@.len() == j,
            forall|k: int|
                0 <= k < j ==> cell_ok(*r, *l, *w, band as int, #[trigger] out@[k], row as int, k),
    {
        let inside = j + band >= row && j <= row + band;
        if inside {
            proof {
                assert(in_band(row as int, j as int, band as int));
            }
            let cell = update_cell(r, l, w, band, prev, &out, row, j);
            out.push(cell);
        } else {
            proof {
                assert(!in_band(row as int, j as int, band as int));
            }
            out.push(Cell::invalid());
        }
    }
    out
}

/// Builds the banded cost grid for the two feature sequences.
pub fn build_cost_grid(
    r: &PronunciationFeatures,
    l: &PronunciationFeatures,
    band: usize,
    w: &AlignmentWeights,
) -> (grid: Vec<Vec<Cell>>)
    requires
        r.wf(),
        l.wf(),
        w.wf(),
        band <= 1_000_000,
    ensures
        grid_ok(*r, *l, *w, band as int, grid@),
{
    let rows = r.frame_count;
    let mut grid: Vec<Vec<Cell>> = Vec::new();
    for row in 0..rows
        invariant
            r.wf(),
            l.wf(),
            w.wf(),
            band <= 1_000_000,
            rows == r.frame_count,
            grid@.len() == row,
            rows_ok(*r, *l, *w, band as int, grid@),
    {
        let next = build_row(r, l, w, band, &grid, row);
        grid.push(next);
    }
    grid
}

/// A boundary cell: on the last row or the last column.
pub open spec fn on_boundary(rows: int, cols: int, i: int, j: int) -> bool {
    i == rows - 1 || j == cols - 1
}

/// Scan position of a boundary cell in the terminal search: the last row
/// left to right, then the last column top to bottom (the corner counts
/// with the row scan).
pub open spec fn scan_rank(rows: int, cols: int, i: int, j: int) -> int {
    if i == rows - 1 {
        j
    } else {
        cols + i
    }
}

/// A chosen terminal cell: reachable, on the boundary, at least as cheap
/// as every other reachable boundary cell, and, among equally cheap cells,
/// the first one found in scan order.
pub open spec fn terminal_ok(
    r: PronunciationFeatures,
    l: PronunciationFeatures,
    w: AlignmentWeights,
    band: int,
    ti: int,
    tj: int,
) -> bool {
    &&& 0 <= ti < r.frame_count
    &&& 0 <= tj < l.frame_count
    &&& on_boundary(r.frame_count as int, l.frame_count as int, ti, tj)
    &&& cell_cost_spec(r, l, w, band, ti, tj) is Some
    &&& forall|i: int, j: int|
        0 <= i < r.frame_count && 0 <= j < l.frame_count && on_boundary(
            r.frame_count as int,
            l.frame_count as int,
            i,
            j,
        ) && #[trigger] cell_cost_spec(r, l, w, band, i, j) is Some ==> cell_cost_spec(
            r,
            l,
            w,
            band,
            ti,
            tj,
        ).unwrap() <= cell_cost_spec(r, l, w, band, i, j).unwrap() && (cell_cost_spec(
            r,
            l,
            w,
            band,
            ti,
            tj,
        ).unwrap() == cell_cost_spec(r, l, w, band, i, j).unwrap() ==> scan_rank(
            r.frame_count as int,
            l.frame_count as int,
            ti,
            tj,
        ) <= scan_rank(r.frame_count as int, l.frame_count as int, i, j))
}

/// Scans the last row and the last column for the cheapest reachable cell.
/// With nonempty inputs such a cell always exists, so this never fails.
pub fn terminal_cell(
    r: &PronunciationFeatures,
    l: &PronunciationFeatures,
    Ghost(w): Ghost<AlignmentWeights>,
    band: usize,
    grid: &Vec<Vec<Cell>>,
) -> (res: Result<(usize, usize), PronunciationError>)
    requires
        r.wf(),
        l.wf(),
        w.wf(),
        r.frame_count >= 1,
        l.frame_count >= 1,
        grid_ok(*r, *l, w, band as int, grid@),
    ensures
        res is Ok,
        res matches Ok(t) ==> terminal_ok(*r, *l, w, band as int, t.0 as int, t.1 as int),
{
    let rows = r.frame_count;
    let cols = l.frame_count;
    let last_row = rows - 1;
    let last_col = cols - 1;
    let mut found = false;
    let mut tr: usize = 0;
    let mut tc: usize = 0;
    let mut best: i64 = 0;
    for j in 0..cols
        invariant
            rows == r.frame_count,
            cols == l.frame_count,
            rows >= 1,
            cols >= 1,
            last_row == rows - 1,
            last_col == cols - 1,
            grid_ok(*r, *l, w, band as int, grid@),
            found ==> tr < rows && tc < cols && on_boundary(rows as int, cols as int, tr as int,
                tc as int) && cell_cost_spec(*r, *l, w, band as int, tr as int, tc as int) == Some(
                best as int,
            ),
            found ==> tr == last_row && (tc as int) < j as int,
            forall|jj: int|
                0 <= jj < j && #[trigger] cell_cost_spec(*r, *l, w, band as int, last_row as int,
                    jj,
                ) is Some ==> found && best <= cell_cost_spec(*r, *l, w, band as int,
                    last_row as int, jj).unwrap() && (best == cell_cost_spec(*r, *l, w,
                    band as int, last_row as int, jj).unwrap() ==> tc as int <= jj),
    {
        let cell = &grid[last_row][j];
        if cell.valid && (!found || cell.cost < best) {
            tr = last_row;
            tc = j;
            best = cell.cost;
            found = true;
        }
    }
    for i in 0..rows
        invariant
            rows == r.frame_count,
            cols == l.frame_count,
            rows >= 1,
            cols >= 1,
            last_row == rows - 1,
            last_col == cols - 1,
            grid_ok(*r, *l, w, band as int, grid@),
            found ==> tr < rows && tc < cols && on_boundary(rows as int, cols as int, tr as int,
                tc as int) && cell_cost_spec(*r, *l, w, band as int, tr as int, tc as int) == Some(
                best as int,
            ),
            found && tr != last_row ==> tc == last_col && (tr as int) < i as int,
            forall|jj: int|
                0 <= jj < cols && #[trigger] cell_cost_spec(*r, *l, w, band as int, last_row as int,
                    jj,
                ) is Some ==> found && best <= cell_cost_spec(*r, *l, w, band as int,
                    last_row as int, jj).unwrap() && (best == cell_cost_spec(*r, *l, w,
                    band as int, last_row as int, jj).unwrap() ==> scan_rank(rows as int,
                    cols as int, tr as int, tc as int) <= scan_rank(rows as int, cols as int,
                    last_row as int, jj)),
            forall|ii: int|
                0 <= ii < i && #[trigger] cell_cost_spec(*r, *l, w, band as int, ii,
                    last_col as int,
                ) is Some ==> found && best <= cell_cost_spec(*r, *l, w, band as int, ii,
                    last_col as int).unwrap() && (best == cell_cost_spec(*r, *l, w, band as int,
                    ii, last_col as int).unwrap() ==> scan_rank(rows as int, cols as int,
                    tr as int, tc as int) <= scan_rank(rows as int, cols as int, ii,
                    last_col as int)),
    {
        let cell = &grid[i][last_col];
        if cell.valid && (!found || cell.cost < best) {
            tr = i;
            tc = last_col;
            best = cell.cost;
            found = true;
        }
    }
    if !found {
        proof {
            // the deepest diagonal cell is reachable and on the boundary
            let m: int = if r.frame_count <= l.frame_count {
                r.frame_count as int
            } else {
                l.frame_count as int
            };
            lemma_in_band_reachable(*r, *l, w, band as int, m - 1, m - 1);
            assert(false);
        }
        return Err(PronunciationError::new("alignment path not found within warp band"));
    }
    proof {
        assert forall|i: int, j: int|
            0 <= i < r.frame_count && 0 <= j < l.frame_count && on_boundary(
                r.frame_count as int,
                l.frame_count as int,
                i,
                j,
            ) && #[trigger] cell_cost_spec(*r, *l, w, band as int, i, j) is Some implies
            cell_cost_spec(*r, *l, w, band as int, tr as int, tc as int).unwrap()
            <= cell_cost_spec(*r, *l, w, band as int, i, j).unwrap() && (cell_cost_spec(
            *r,
            *l,
            w,
            band as int,
            tr as int,
            tc as int,
        ).unwrap() == cell_cost_spec(*r, *l, w, band as int, i, j).unwrap() ==> scan_rank(
            r.frame_count as int,
            l.frame_count as int,
            tr as int,
            tc as int,
        ) <= scan_rank(r.frame_count as int, l.frame_count as int, i, j)) by {
            if i == r.frame_count - 1 {
                assert(cell_cost_spec(*r, *l, w, band as int, last_row as int, j) is Some);
            } else {
                assert(j == l.frame_count - 1);
                assert(cell_cost_spec(*r, *l, w, band as int, i, last_col as int) is Some);
            }
        }
    }
    Ok((tr, tc))
}

/// One step of the alignment path: the pair of frames aligned at that
/// step and the local cost of the pairing.
#[derive(Debug, Clone, Copy, PartialEq, Eq, Structural)]
pub struct PathPoint {
    pub row: usize,
    pub col: usize,
    pub cost: i64,
}

/// One path step moves down, right, or both; indices never decrease.
pub open spec fn step_ok(a: PathPoint, b: PathPoint) -> bool {
    ||| (b.row == a.row + 1 && b.col == a.col + 1)
    ||| (b.row == a.row + 1 && b.col == a.col)
    ||| (b.row == a.row && b.col == a.col + 1)
}

/// A path point pairs frames inside both sequences and the band, and
/// carries that pairing's local cost.
pub open spec fn point_ok(
    r: PronunciationFeatures,
    l: PronunciationFeatures,
    w: AlignmentWeights,
    band: int,
    p: PathPoint,
) -> bool {
    &&& p.row < r.frame_count
    &&& p.col < l.frame_count
    &&& in_band(p.row as int, p.col as int, band)
    &&& p.cost == frame_cost_spec(r, l, w, p.row as int, p.col as int)
}

/// A monotone, in-band alignment path from the origin.
pub open spec fn path_ok(
    r: PronunciationFeatures,
    l: PronunciationFeatures,
    w: AlignmentWeights,
    band: int,
    path: Seq<PathPoint>,
) -> bool {
    &&& path.len() >= 1
    &&& path[0].row == 0 && path[0].col == 0
    &&& forall|k: int| 0 <= k < path.len() ==> point_ok(r, l, w, band, #[trigger] path[k])
    &&& forall|k: int| 0 <= k < path.len() - 1 ==> step_ok(#[trigger] path[k], path[k + 1])
}

/// Band monotonicity: along a valid alignment path, both the reference
/// and the learner frame index are non-decreasing at every step.
pub proof fn lemma_path_monotone(
    r: PronunciationFeatures,
    l: PronunciationFeatures,
    w: AlignmentWeights,
    band: int,
    path: Seq<PathPoint>,
    a: int,
    b: int,
)
    requires
        path_ok(r, l, w, band, path),
        0 <= a <= b < path.len(),
    ensures
        path[a].row <= path[b].row,
        path[a].col <= path[b].col,
    decreases b - a,
{
    if a < b {
        lemma_path_monotone(r, l, w, band, path, a, b - 1);
        assert(step_ok(path[b - 1], path[b]));
    }
}

/// Sum of the local costs of the first `n` path points.
pub open spec fn locals_sum(path: Seq<PathPoint>, n: int) -> int
    decreases n,
{
    if n <= 0 {
        0int
    } else {
        locals_sum(path, n - 1) + path[n - 1].cost
    }
}

/// The sum over a prefix only depends on that prefix.
proof fn lemma_locals_sum_prefix(a: Seq<PathPoint>, b: Seq<PathPoint>, n: int)
    requires
        n <= a.len(),
        n <= b.len(),
        forall|i: int| 0 <= i < n ==> a[i] == b[i],
    ensures
        locals_sum(a, n) == locals_sum(b, n),
    decreases n,
{
    if n > 0 {
        lemma_locals_sum_prefix(a, b, n - 1);
    }
}

/// Follows the recorded directions from the terminal cell back to the
/// origin and returns the path in forward order. The sum of the local
/// costs along the path equals the terminal cell's cumulative cost.
pub fn trace_optimal_path(
    r: &PronunciationFeatures,
    l: &PronunciationFeatures,
    Ghost(w): Ghost<AlignmentWeights>,
    band: usize,
    grid: &Vec<Vec<Cell>>,
    terminal: (usize, usize),
) -> (path: Vec<PathPoint>)
    requires
        r.wf(),
        l.wf(),
        w.wf(),
        grid_ok(*r, *l, w, band as int, grid@),
        terminal.0 < r.frame_count,
        terminal.1 < l.frame_count,
        cell_cost_spec(*r, *l, w, band as int, terminal.0 as int, terminal.1 as int) is Some,
    ensures
        path_ok(*r, *l, w, band as int, path@),
        path@.last().row == terminal.0,
        path@.last().col == terminal.1,
        locals_sum(path@, path@.len() as int) == cell_cost_spec(
            *r,
            *l,
            w,
            band as int,
            terminal.0 as int,
            terminal.1 as int,
        ).unwrap(),
        path@.len() <= terminal.0 + terminal.1 + 1,
{
    let (ti, tj) = terminal;
    let ghost term_cost = cell_cost_spec(*r, *l, w, band as int, ti as int, tj as int).unwrap();
    let mut row = ti;
    let mut col = tj;
    let mut rev: Vec<PathPoint> = Vec::new();
    while row > 0 || col > 0
        invariant
            r.wf(),
            l.wf(),
            w.wf(),
            grid_ok(*r, *l, w, band as int, grid@),
            row < r.frame_count,
            col < l.frame_count,
            cell_cost_spec(*r, *l, w, band as int, row as int, col as int) is Some,
            term_cost == cell_cost_spec(*r, *l, w, band as int, ti as int, tj as int).unwrap(),
            rev@.len() <= (ti - row) + (tj - col),
            rev@.len() > 0 ==> rev@[0].row == ti && rev@[0].col == tj,
            rev@.len() == 0 ==> row == ti && col == tj,
            forall|k: int| 0 <= k < rev@.len() ==> point_ok(*r, *l, w, band as int,
                #[trigger] rev@[k]),
            forall|k: int| 0 <= k < rev@.len() - 1 ==> step_ok(#[trigger] rev@[k + 1], rev@[k]),
            rev@.len() > 0 ==> ((rev@.last().row == row + 1 && rev@.last().col == col + 1) || (
            rev@.last().row == row + 1 && rev@.last().col == col) || (rev@.last().row == row
                && rev@.last().col == col + 1)),
            locals_sum(rev@, rev@.len() as int) + cell_cost_spec(
                *r,
                *l,
                w,
                band as int,
                row as int,
                col as int,
            ).unwrap() == term_cost,
        decreases row + col,
    {
        let cell = grid[row][col];
        let ghost pre = rev@;
        rev.push(PathPoint { row, col, cost: cell.local });
        proof {
            assert(cell_ok(*r, *l, w, band as int, grid@[row as int]@[col as int], row as int,
                col as int));
            lemma_locals_sum_prefix(rev@, pre, pre.len() as int);
            assert(locals_sum(rev@, rev@.len() as int) == locals_sum(pre, pre.len() as int)
                + cell.local);
        }
        match cell.direction {
            Direction::Diagonal => {
                row = row - 1;
                col = col - 1;
            },
            Direction::Up => {
                row = row - 1;
            },
            Direction::Left => {
                col = col - 1;
            },
            Direction::Origin => {
                proof {
                    assert(false);
                }
            },
        }
    }
    let origin = grid[0][0];
    proof {
        assert(cell_ok(*r, *l, w, band as int, grid@[0]@[0], 0, 0));
        assert(cell_cost_spec(*r, *l, w, band as int, 0, 0) == Some(
            frame_cost_spec(*r, *l, w, 0, 0),
        ));
    }
    let ghost pre = rev@;
    rev.push(PathPoint { row: 0, col: 0, cost: origin.local });
    proof {
        lemma_locals_sum_prefix(rev@, pre, pre.len() as int);
        assert(locals_sum(rev@, rev@.len() as int) == locals_sum(pre, pre.len() as int)
            + origin.local);
        assert(locals_sum(rev@, rev@.len() as int) == term_cost);
    }
    let total = rev.len();
    let ghost revs = rev@;
    let mut out: Vec<PathPoint> = Vec::new();
    let mut k: usize = total;
    while k > 0
        invariant
            total == revs.len(),
            rev@ == revs,
            k <= total,
            out@.len() == total - k,
            forall|i: int| 0 <= i < out@.len() ==> #[trigger] out@[i] == revs[total - 1 - i],
            locals_sum(out@, out@.len() as int) + locals_sum(revs, k as int) == locals_sum(
                revs,
                total as int,
            ),
        decreases k,
    {
        k = k - 1;
        let ghost pre = out@;
        out.push(rev[k]);
        proof {
            lemma_locals_sum_prefix(out@, pre, pre.len() as int);
            assert(locals_sum(out@, out@.len() as int) == locals_sum(pre, pre.len() as int)
                + revs[k as int].cost);
        }
    }
    proof {
        assert(out@.last() == revs[0]);
        assert(out@[0] == revs[total - 1]);
        assert forall|q: int| 0 <= q < out@.len() - 1 implies step_ok(
            #[trigger] out@[q],
            out@[q + 1],
        ) by {
            assert(out@[q] == revs[total - 1 - q]);
            assert(out@[q + 1] == revs[total - 2 - q]);
            assert(step_ok(revs[(total - 2 - q) + 1], revs[total - 2 - q]));
        }
    }
    out
}

/// The timing contribution of one path step, in milli-milliseconds:
/// (learner frame - reference frame) at 10 ms per frame.
pub open spec fn timing_term(p: PathPoint) -> int {
    (p.col - p.row) * 10_000
}

/// The similarity contribution of one path step, in milli-units:
/// one minus the local cost normalized by the ceiling.
pub open spec fn sim_term(p: PathPoint) -> int {
    let ratio = p.cost as int / 6;
    1000 - (if ratio <= 1000 {
        ratio
    } else {
        1000int
    })
}

/// The articulation contribution of one path step: the absolute
/// spectral-flux difference of the aligned frames.
pub open spec fn artic_term(
    r: PronunciationFeatures,
    l: PronunciationFeatures,
    p: PathPoint,
) -> int {
    abs(r.spectral_flux@[p.row as int] - l.spectral_flux@[p.col as int])
}

/// Sum of timing contributions over path steps `[s, e)`.
pub open spec fn timing_sum(path: Seq<PathPoint>, s: int, e: int) -> int
    decreases e - s,
{
    if e <= s {
        0int
    } else {
        timing_sum(path, s, e - 1) + timing_term(path[e - 1])
    }
}

/// Sum of similarity contributions over path steps `[s, e)`.
pub open spec fn sim_sum(path: Seq<PathPoint>, s: int, e: int) -> int
    decreases e - s,
{
    if e <= s {
        0int
    } else {
        sim_sum(path, s, e - 1) + sim_term(path[e - 1])
    }
}

/// Sum of articulation contributions over path steps `[s, e)`.
pub open spec fn artic_sum(
    r: PronunciationFeatures,
    l: PronunciationFeatures,
    path: Seq<PathPoint>,
    s: int,
    e: int,
) -> int
    decreases e - s,
{
    if e <= s {
        0int
    } else {
        artic_sum(r, l, path, s, e - 1) + artic_term(r, l, path[e - 1])
    }
}

/// Sum of local costs over path steps `[s, e)`.
pub open spec fn cost_sum(path: Seq<PathPoint>, s: int, e: int) -> int
    decreases e - s,
{
    if e <= s {
        0int
    } else {
        cost_sum(path, s, e - 1) + path[e - 1].cost
    }
}

/// First path step of segment `k`.
pub open spec fn seg_s(k: int, seg: int) -> int {
    k * seg
}

/// One past the last path step of segment `k`.
pub open spec fn seg_e(path_len: int, k: int, seg: int) -> int {
    if k * seg + seg <= path_len {
        k * seg + seg
    } else {
        path_len
    }
}

/// How many segments a path of `path_len` steps yields: windows of `seg`
/// steps, the last possibly shorter.
pub open spec fn seg_count(path_len: int, seg: int) -> int {
    (path_len + seg - 1) / seg
}

/// What one reported segment must hold, as a function of the path window
/// it summarizes: mean timing delta, mean similarity, mean articulation
/// variance, millisecond bounds from the first and last step, and the
/// running segment label.
pub open spec fn phoneme_ok(
    r: PronunciationFeatures,
    l: PronunciationFeatures,
    path: Seq<PathPoint>,
    seg: int,
    k: int,
    ph: AlignedPhoneme,
) -> bool {
    let s = seg_s(k, seg);
    let e = seg_e(path.len() as int, k, seg);
    let n = e - s;
    &&& ph.symbol@ == seq!['S'] + crate::text::spec_decimal(k + 1)
    &&& ph.reference_start_ms == path[s].row * 10
    &&& ph.reference_end_ms == (path[e - 1].row + 1) * 10
    &&& ph.learner_start_ms == path[s].col * 10
    &&& ph.learner_end_ms == (path[e - 1].col + 1) * 10
    &&& ph.timing_delta_mms == timing_sum(path, s, e) / n
    &&& ph.similarity == crate::pronunciation::metrics::clamp_unit(sim_sum(path, s, e) / n)
    &&& ph.articulation_variance == crate::pronunciation::metrics::clamp_unit(
        artic_sum(r, l, path, s, e) / n,
    )
    &&& ph.contour_similarity == 0
}

/// Sum over the first `k` segments of each segment's mean local cost.
pub open spec fn cost_means_sum(path: Seq<PathPoint>, seg: int, k: int) -> int
    decreases k,
{
    if k <= 0 {
        0int
    } else {
        let s = seg_s(k - 1, seg);
        let e = seg_e(path.len() as int, k - 1, seg);
        cost_means_sum(path, seg, k - 1) + cost_sum(path, s, e) / (e - s)
    }
}

/// Sum over the first `k` segments of each segment's mean timing delta.
pub open spec fn timing_means_sum(path: Seq<PathPoint>, seg: int, k: int) -> int
    decreases k,
{
    if k <= 0 {
        0int
    } else {
        let s = seg_s(k - 1, seg);
        let e = seg_e(path.len() as int, k - 1, seg);
        timing_means_sum(path, seg, k - 1) + timing_sum(path, s, e) / (e - s)
    }
}

/// Sum of local costs of the in-band cells in row `i`, columns `[0, j)`.
pub open spec fn band_row_sum(
    r: PronunciationFeatures,
    l: PronunciationFeatures,
    w: AlignmentWeights,
    band: int,
    i: int,
    j: int,
) -> int
    decreases j,
{
    if j <= 0 {
        0int
    } else {
        band_row_sum(r, l, w, band, i, j - 1) + (if in_band(i, j - 1, band) {
            frame_cost_spec(r, l, w, i, j - 1)
        } else {
            0int
        })
    }
}

/// Count of in-band cells in row `i`, columns `[0, j)`.
pub open spec fn band_row_count(band: int, i: int, j: int) -> int
    decreases j,
{
    if j <= 0 {
        0int
    } else {
        band_row_count(band, i, j - 1) + (if in_band(i, j - 1, band) {
            1int
        } else {
            0int
        })
    }
}

/// Sum of local costs of the in-band cells in rows `[0, i)`.
pub open spec fn band_sum(
    r: PronunciationFeatures,
    l: PronunciationFeatures,
    w: AlignmentWeights,
    band: int,
    i: int,
    cols: int,
) -> int
    decreases i,
{
    if i <= 0 {
        0int
    } else {
        band_sum(r, l, w, band, i - 1, cols) + band_row_sum(r, l, w, band, i - 1, cols)
    }
}

/// Count of in-band cells in rows `[0, i)`.
pub open spec fn band_count(band: int, i: int, cols: int) -> int
    decreases i,
{
    if i <= 0 {
        0int
    } else {
        band_count(band, i - 1, cols) + band_row_count(band, i - 1, cols)
    }
}

/// The global confidence: one over one plus the mean in-band local cost
/// normalized by the ceiling, in milli-units. It looks at the whole grid,
/// not just the chosen path.
pub open spec fn confidence_spec(
    r: PronunciationFeatures,
    l: PronunciationFeatures,
    w: AlignmentWeights,
    band: int,
) -> int {
    let total = band_sum(r, l, w, band, r.frame_count as int, l.frame_count as int);
    let count = band_count(band, r.frame_count as int, l.frame_count as int);
    let mean = if count == 0 {
        0int
    } else {
        total / count
    };
    crate::pronunciation::metrics::clamp_unit(6_000_000int / (6000 + mean))
}

proof fn lemma_mean_bound(sum: int, n: int, bnd: int)
    requires
        n >= 1,
        bnd >= 0,
        -(n * bnd) <= sum <= n * bnd,
    ensures
        -bnd <= sum / n <= bnd,
{
    vstd::arithmetic::div_mod::lemma_div_is_ordered(sum, n * bnd, n);
    vstd::arithmetic::div_mod::lemma_div_is_ordered(-(n * bnd), sum, n);
    assert(n * bnd == n * bnd && -(n * bnd) == n * (-bnd)) by (nonlinear_arith);
    vstd::arithmetic::div_mod::lemma_div_multiples_vanish(bnd, n);
    vstd::arithmetic::div_mod::lemma_div_multiples_vanish(-bnd, n);
}

/// Everything the segment pass derives from the path besides the report
/// frame: the per-segment units, their similarity band, and the two
/// aggregate means.
struct SegmentSummary {
    phonemes: Vec<AlignedPhoneme>,
    similarity_band: Vec<i64>,
    total_cost: i64,
    global_offset: i64,
}

/// Slices the path into fixed-size windows and summarizes each one.
#[verifier::rlimit(100)]
fn summarise_segments(
    r: &PronunciationFeatures,
    l: &PronunciationFeatures,
    Ghost(w): Ghost<AlignmentWeights>,
    Ghost(band): Ghost<int>,
    path: &Vec<PathPoint>,
    seg: usize,
) -> (out: SegmentSummary)
    requires
        r.wf(),
        l.wf(),
        w.wf(),
        1 <= seg <= 100_000,
        path_ok(*r, *l, w, band, path@),
        path@.len() <= 2 * MAX_FRAMES,
    ensures
        out.phonemes@.len() == seg_count(path@.len() as int, seg as int),
        forall|k: int|
            0 <= k < out.phonemes@.len() ==> phoneme_ok(*r, *l, path@, seg as int, k,
                #[trigger] out.phonemes@[k]),
        out.similarity_band@.len() == out.phonemes@.len(),
        forall|k: int|
            0 <= k < out.similarity_band@.len() ==> #[trigger] out.similarity_band@[k]
                == out.phonemes@[k].similarity,
        out.total_cost == cost_means_sum(path@, seg as int, seg_count(path@.len() as int,
            seg as int)) / path@.len() as int,
        out.global_offset == timing_means_sum(path@, seg as int, seg_count(path@.len() as int,
            seg as int)) / seg_count(path@.len() as int, seg as int),
        0 <= out.total_cost <= COST_NORMALISER,
{
    let len = path.len();
    let count = (len + seg - 1) / seg;
    proof {
        assert(1 <= count <= len) by (nonlinear_arith)
            requires
                1 <= seg,
                1 <= len,
                count == (len + seg - 1) as int / seg as int;
    }
    let mut phonemes: Vec<AlignedPhoneme> = Vec::new();
    let mut similarity_band: Vec<i64> = Vec::new();
    let mut cost_means: i64 = 0;
    let mut timing_means: i64 = 0;
    for k in 0..count
        invariant
            r.wf(),
            l.wf(),
            w.wf(),
            1 <= seg <= 100_000,
            path_ok(*r, *l, w, band, path@),
            len == path@.len(),
            1 <= len <= 2 * MAX_FRAMES,
            count == seg_count(len as int, seg as int),
            1 <= count <= len,
            phonemes@.len() == k,
            forall|kk: int|
                0 <= kk < k as int ==> phoneme_ok(*r, *l, path@, seg as int, kk,
                    #[trigger] phonemes@[kk]),
            similarity_band@.len() == k,
            forall|kk: int|
                0 <= kk < k as int ==> #[trigger] similarity_band@[kk]
                    == phonemes@[kk].similarity,
            cost_means == cost_means_sum(path@, seg as int, k as int),
            0 <= cost_means <= k * COST_NORMALISER,
            timing_means == timing_means_sum(path@, seg as int, k as int),
            -(k * 1_000_000_000) <= timing_means <= k * 1_000_000_000,
    {
        proof {
            assert(k as int * seg as int <= len - 1) by (nonlinear_arith)
                requires
                    0 <= k as int <= count - 1,
                    1 <= seg,
                    1 <= len,
                    count == (len + seg - 1) as int / seg as int;
        }
        let s = k * seg;
        let e = if s + seg <= len {
            s + seg
        } else {
            len
        };
        let ghost si = s as int;
        let ghost ei = e as int;
        proof {
            assert(ei == seg_e(len as int, k as int, seg as int));
        }
        let mut t_sum: i64 = 0;
        let mut s_sum: i64 = 0;
        let mut a_sum: i64 = 0;
        let mut c_sum: i64 = 0;
        let mut idx = s;
        while idx < e
            invariant
                r.wf(),
                l.wf(),
                w.wf(),
                path_ok(*r, *l, w, band, path@),
                len == path@.len(),
                si <= idx as int <= ei,
                si == s as int,
                ei == e as int,
                e <= len,
                ei - si <= seg,
                seg <= 100_000,
                t_sum == timing_sum(path@, si, idx as int),
                -((idx - s) * 1_000_000_000) <= t_sum <= (idx - s) * 1_000_000_000,
                s_sum == sim_sum(path@, si, idx as int),
                0 <= s_sum <= (idx - s) * 1000,
                a_sum == artic_sum(*r, *l, path@, si, idx as int),
                0 <= a_sum <= (idx - s) * (2 * FEATURE_LIMIT),
                c_sum == cost_sum(path@, si, idx as int),
                0 <= c_sum <= (idx - s) * COST_NORMALISER,
            decreases e - idx,
        {
            let pt = path[idx];
            proof {
                assert(point_ok(*r, *l, w, band, path@[idx as int]));
                lemma_frame_cost_bounds(*r, *l, w, pt.row as int, pt.col as int);
                assert(-FEATURE_LIMIT <= r.spectral_flux@[pt.row as int] <= FEATURE_LIMIT);
                assert(-FEATURE_LIMIT <= l.spectral_flux@[pt.col as int] <= FEATURE_LIMIT);
                assert(a_sum <= 100_000 * (2 * FEATURE_LIMIT)) by (nonlinear_arith)
                    requires
                        a_sum <= (idx as int - s as int) * (2 * FEATURE_LIMIT),
                        0 <= idx as int - s as int <= 100_000;
                assert((idx - s) * 1_000_000_000 + 1_000_000_000 == (idx + 1 - s)
                    * 1_000_000_000) by (nonlinear_arith);
                assert((idx - s) * 1000 + 1000 == (idx + 1 - s) * 1000) by (nonlinear_arith);
                assert((idx - s) * (2 * FEATURE_LIMIT) + 2 * FEATURE_LIMIT == (idx + 1 - s) * (2
                    * FEATURE_LIMIT)) by (nonlinear_arith);
                assert((idx - s) * COST_NORMALISER + COST_NORMALISER == (idx + 1 - s)
                    * COST_NORMALISER) by (nonlinear_arith);
                assert((idx - s) * 1_000_000_000 <= 100_000 * 1_000_000_000) by (nonlinear_arith)
                    requires
                        0 <= (idx - s) as int <= 100_000;
            }
            t_sum = t_sum + ((pt.col as i64) - (pt.row as i64)) * 10_000;
            let ratio = ((pt.cost as u64) / 6) as i64;
            let capped = if ratio <= 1000 {
                ratio
            } else {
                1000
            };
            s_sum = s_sum + (1000 - capped);
            let fd = r.spectral_flux[pt.row] - l.spectral_flux[pt.col];
            let fda = if fd < 0 {
                -fd
            } else {
                fd
            };
            a_sum = a_sum + fda;
            c_sum = c_sum + pt.cost;
            idx = idx + 1;
        }
        let n = (e - s) as i64;
        proof {
            assert((idx - s) * 1_000_000_000 <= 100_000 * 1_000_000_000) by (nonlinear_arith)
                requires
                    0 <= (idx - s) as int <= 100_000;
            assert((idx - s) * (2 * FEATURE_LIMIT) <= 100_000 * (2 * FEATURE_LIMIT))
                by (nonlinear_arith)
                requires
                    0 <= (idx - s) as int <= 100_000;
            assert((idx - s) * COST_NORMALISER <= 100_000 * COST_NORMALISER) by (nonlinear_arith)
                requires
                    0 <= (idx - s) as int <= 100_000;
            assert((idx - s) * 1000 <= 100_000 * 1000) by (nonlinear_arith)
                requires
                    0 <= (idx - s) as int <= 100_000;
            lemma_mean_bound(t_sum as int, n as int, 1_000_000_000);
            lemma_mean_bound(c_sum as int, n as int, COST_NORMALISER as int);
        }
        let t_mean = div_floor(t_sum, n);
        let s_mean = clamp_unit_x(div_floor(s_sum, n));
        let a_mean = clamp_unit_x(div_floor(a_sum, n));
        let c_mean = div_floor(c_sum, n);
        let mut sym = String::new();
        push_char(&mut sym, 'S');
        let num = format_u64((k + 1) as u64);
        sym.append(num.as_str());
        proof {
            assert(sym@ =~= seq!['S'] + spec_decimal(k + 1));
        }
        let first = path[s];
        let last_pt = path[e - 1];
        let ph = AlignedPhoneme {
            symbol: sym,
            reference_start_ms: (first.row as u64) * 10,
            reference_end_ms: ((last_pt.row as u64) + 1) * 10,
            learner_start_ms: (first.col as u64) * 10,
            learner_end_ms: ((last_pt.col as u64) + 1) * 10,
            timing_delta_mms: t_mean,
            similarity: s_mean,
            articulation_variance: a_mean,
            contour_similarity: 0,
        };
        proof {
            assert(point_ok(*r, *l, w, band, path@[si]));
            assert(point_ok(*r, *l, w, band, path@[ei - 1]));
            assert(phoneme_ok(*r, *l, path@, seg as int, k as int, ph));
            assert(k * COST_NORMALISER + COST_NORMALISER == (k + 1) * COST_NORMALISER)
                by (nonlinear_arith);
            assert(k * 1_000_000_000 + 1_000_000_000 == (k + 1) * 1_000_000_000)
                by (nonlinear_arith);
            assert(k * COST_NORMALISER <= 200_000 * COST_NORMALISER) by (nonlinear_arith)
                requires
                    0 <= k as int <= 200_000;
            assert(k * 1_000_000_000 <= 200_000 * 1_000_000_000) by (nonlinear_arith)
                requires
                    0 <= k as int <= 200_000;
        }
        phonemes.push(ph);
        similarity_band.push(s_mean);
        cost_means = cost_means + c_mean;
        timing_means = timing_means + t_mean;
    }
    proof {
        assert(count * COST_NORMALISER <= 200_000 * COST_NORMALISER) by (nonlinear_arith)
            requires
                0 <= count as int <= 200_000;
        assert(count * 1_000_000_000 <= 200_000 * 1_000_000_000) by (nonlinear_arith)
            requires
                0 <= count as int <= 200_000;
        lemma_mean_bound(cost_means as int, len as int, 200_000 * COST_NORMALISER);
        vstd::arithmetic::div_mod::lemma_div_pos_is_pos(cost_means as int, len as int);
        vstd::arithmetic::div_mod::lemma_div_is_ordered(
            cost_means as int,
            len as int * COST_NORMALISER,
            len as int,
        );
        assert(cost_means as int <= len as int * COST_NORMALISER) by (nonlinear_arith)
            requires
                cost_means <= count * COST_NORMALISER,
                count <= len,
                0 <= count;
        assert(len as int * COST_NORMALISER / len as int == COST_NORMALISER) by (nonlinear_arith)
            requires
                1 <= len;
    }
    let total_cost = div_floor(cost_means, len as i64);
    let global_offset = div_floor(timing_means, count as i64);
    SegmentSummary { phonemes, similarity_band, total_cost, global_offset }
}

/// Walks the populated grid and derives the global confidence.
fn confidence_from_cost(
    r: &PronunciationFeatures,
    l: &PronunciationFeatures,
    Ghost(w): Ghost<AlignmentWeights>,
    Ghost(band): Ghost<int>,
    grid: &Vec<Vec<Cell>>,
) -> (c: i64)
    requires
        r.wf(),
        l.wf(),
        w.wf(),
        band >= 0,
        grid_ok(*r, *l, w, band, grid@),
    ensures
        c == confidence_spec(*r, *l, w, band),
        0 <= c <= 1000,
{
    let rows = r.frame_count;
    let cols = l.frame_count;
    let mut total: i64 = 0;
    let mut cnt: i64 = 0;
    for i in 0..rows
        invariant
            r.wf(),
            l.wf(),
            w.wf(),
            band >= 0,
            grid_ok(*r, *l, w, band, grid@),
            rows == r.frame_count,
            cols == l.frame_count,
            total == band_sum(*r, *l, w, band, i as int, cols as int),
            cnt == band_count(band, i as int, cols as int),
            0 <= cnt <= (i as int) * (cols as int),
            0 <= total <= cnt * COST_NORMALISER,
    {
        let mut j: usize = 0;
        while j < cols
            invariant
                r.wf(),
                l.wf(),
                w.wf(),
                band >= 0,
                grid_ok(*r, *l, w, band, grid@),
                rows == r.frame_count,
                cols == l.frame_count,
                i < rows,
                j <= cols,
                total == band_sum(*r, *l, w, band, i as int, cols as int) + band_row_sum(
                    *r,
                    *l,
                    w,
                    band,
                    i as int,
                    j as int,
                ),
                cnt == band_count(band, i as int, cols as int) + band_row_count(band, i as int,
                    j as int),
                0 <= cnt <= (i as int) * (cols as int) + j as int,
                0 <= total <= cnt * COST_NORMALISER,
            decreases cols - j,
        {
            let cell = &grid[i][j];
            proof {
                assert(cell_ok(*r, *l, w, band, grid@[i as int]@[j as int], i as int, j as int));
                if in_band(i as int, j as int, band) {
                    lemma_in_band_reachable(*r, *l, w, band, i as int, j as int);
                }
                lemma_frame_cost_bounds(*r, *l, w, i as int, j as int);
                assert((i as int) * (cols as int) + j as int + 1 <= 10_000_000_000)
                    by (nonlinear_arith)
                    requires
                        0 <= (i as int) < 100_000,
                        0 <= (cols as int) <= 100_000,
                        (j as int) < cols as int;
                assert(0 <= cnt <= 10_000_000_000);
                assert(cnt * COST_NORMALISER + COST_NORMALISER == (cnt + 1) * COST_NORMALISER)
                    by (nonlinear_arith);
                assert(cnt * COST_NORMALISER <= 10_000_000_001 * COST_NORMALISER)
                    by (nonlinear_arith)
                    requires
                        0 <= cnt as int <= 10_000_000_001;
            }
            if cell.valid {
                total = total + cell.local;
                cnt = cnt + 1;
            }
            j = j + 1;
        }
        proof {
            assert((i as int) * (cols as int) + cols as int == (i as int + 1) * (cols as int))
                by (nonlinear_arith);
        }
    }
    let mean: i64 = if cnt == 0 {
        0
    } else {
        proof {
            vstd::arithmetic::div_mod::lemma_div_is_ordered(
                total as int,
                cnt as int * COST_NORMALISER,
                cnt as int,
            );
            assert(cnt as int * COST_NORMALISER / cnt as int == COST_NORMALISER)
                by (nonlinear_arith)
                requires
                    1 <= cnt as int;
            vstd::arithmetic::div_mod::lemma_div_pos_is_pos(total as int, cnt as int);
        }
        ((total as u64) / (cnt as u64)) as i64
    };
    clamp_unit_x((6_000_000u64 / ((6000 + mean) as u64)) as i64)
}

/// What an alignment report promises about the inputs, relative to the
/// alignment path that produced it: the path is a monotone in-band path
/// whose last step is a cheapest reachable boundary cell, its local costs
/// sum to that cell's cumulative cost, the segments summarize consecutive
/// path windows, and the aggregate fields follow the stated formulas.
pub open spec fn report_ok(
    r: PronunciationFeatures,
    l: PronunciationFeatures,
    w: AlignmentWeights,
    band: int,
    seg: int,
    path: Seq<PathPoint>,
    rep: AlignmentReport,
) -> bool {
    &&& path_ok(r, l, w, band, path)
    &&& terminal_ok(r, l, w, band, path.last().row as int, path.last().col as int)
    &&& locals_sum(path, path.len() as int) == cell_cost_spec(
        r,
        l,
        w,
        band,
        path.last().row as int,
        path.last().col as int,
    ).unwrap()
    &&& rep.phonemes@.len() == seg_count(path.len() as int, seg)
    &&& forall|k: int|
        0 <= k < rep.phonemes@.len() ==> phoneme_ok(r, l, path, seg, k, #[trigger] rep.phonemes@[k])
    &&& rep.total_duration_ms == r.frame_count * 10
    &&& rep.reference_path_cost == cost_means_sum(path, seg, seg_count(path.len() as int, seg))
        / path.len() as int
    &&& rep.learner_path_cost == rep.reference_path_cost
    &&& 0 <= rep.reference_path_cost <= COST_NORMALISER
    &&& rep.global_time_offset_mms == timing_means_sum(path, seg, seg_count(path.len() as int,
        seg,
    )) / seg_count(path.len() as int, seg)
    &&& rep.confidence == confidence_spec(r, l, w, band)
    &&& rep.reference_energy@ == r.energy@
    &&& rep.learner_energy@ == l.energy@
    &&& rep.similarity_band@.len() == rep.phonemes@.len()
    &&& forall|k: int|
        0 <= k < rep.similarity_band@.len() ==> #[trigger] rep.similarity_band@[k]
            == rep.phonemes@[k].similarity
    &&& rep.contour_band@.len() == 0
    &&& rep.reference_pitch@ == r.pitch_contour@
    &&& rep.learner_pitch@ == l.pitch_contour@
}

/// Packages the facts the alignment pipeline establishes into the
/// existential the report contract states.
proof fn lemma_report_witness(
    r: PronunciationFeatures,
    l: PronunciationFeatures,
    w: AlignmentWeights,
    band: int,
    seg: int,
    path: Seq<PathPoint>,
    rep: AlignmentReport,
)
    requires
        path_ok(r, l, w, band, path),
        terminal_ok(r, l, w, band, path.last().row as int, path.last().col as int),
        locals_sum(path, path.len() as int) == cell_cost_spec(
            r,
            l,
            w,
            band,
            path.last().row as int,
            path.last().col as int,
        ).unwrap(),
        rep.phonemes@.len() == seg_count(path.len() as int, seg),
        forall|k: int|
            0 <= k < rep.phonemes@.len() ==> phoneme_ok(r, l, path, seg, k,
                #[trigger] rep.phonemes@[k]),
        rep.total_duration_ms == r.frame_count * 10,
        rep.reference_path_cost == cost_means_sum(path, seg, seg_count(path.len() as int, seg))
            / path.len() as int,
        rep.learner_path_cost == rep.reference_path_cost,
        0 <= rep.reference_path_cost <= COST_NORMALISER,
        rep.global_time_offset_mms == timing_means_sum(path, seg, seg_count(path.len() as int,
            seg,
        )) / seg_count(path.len() as int, seg),
        rep.confidence == confidence_spec(r, l, w, band),
        rep.reference_energy@ == r.energy@,
        rep.learner_energy@ == l.energy@,
        rep.similarity_band@.len() == rep.phonemes@.len(),
        forall|k: int|
            0 <= k < rep.similarity_band@.len() ==> #[trigger] rep.similarity_band@[k]
                == rep.phonemes@[k].similarity,
        rep.contour_band@.len() == 0,
        rep.reference_pitch@ == r.pitch_contour@,
        rep.learner_pitch@ == l.pitch_contour@,
    ensures
        some_report_ok(r, l, w, band, seg, rep),
{
    assert(report_ok(r, l, w, band, seg, path, rep));
}

/// A report for which some alignment path satisfies `report_ok`.
pub open spec fn some_report_ok(
    r: PronunciationFeatures,
    l: PronunciationFeatures,
    w: AlignmentWeights,
    band: int,
    seg: int,
    rep: AlignmentReport,
) -> bool {
    exists|path: Seq<PathPoint>| report_ok(r, l, w, band, seg, path, rep)
}

/// Both feature batches must hold at least one frame; says which side is
/// empty otherwise.
pub fn ensure_features(
    reference: &PronunciationFeatures,
    learner: &PronunciationFeatures,
) -> (res: Result<(), PronunciationError>)
    ensures
        res is Ok <==> (reference.frame_count > 0 && learner.frame_count > 0),
        res matches Err(e) ==> e.spec_message() == (if reference.frame_count == 0 {
            "reference features contain no frames for alignment"@
        } else {
            "learner features contain no frames for alignment"@
        }),
{
    if reference.frame_count == 0 {
        return Err(PronunciationError::new("reference features contain no frames for alignment"));
    }
    if learner.frame_count == 0 {
        return Err(PronunciationError::new("learner features contain no frames for alignment"));
    }
    Ok(())
}

/// The banded dynamic-time-warping aligner: a warp band half-width, a
/// segment window size and the cost weights.
#[derive(Debug)]
pub struct AudioAligner {
    pub warp_band: usize,
    pub segment_frames: usize,
    pub weights: AlignmentWeights,
}

impl AudioAligner {
    /// Bounds under which every alignment computation stays in range.
    pub open spec fn wf(&self) -> bool {
        &&& self.weights.wf()
        &&& self.warp_band <= 1_000_000
        &&& 1 <= self.segment_frames <= 100_000
    }

    pub fn new(weights: AlignmentWeights) -> (r: AudioAligner)
        ensures
            r.warp_band == DEFAULT_WARP_BAND,
            r.segment_frames == DEFAULT_SEGMENT_FRAMES,
            r.weights == weights,
            weights.wf() ==> r.wf(),
    {
        AudioAligner {
            warp_band: DEFAULT_WARP_BAND,
            segment_frames: DEFAULT_SEGMENT_FRAMES,
            weights,
        }
    }

    /// Aligns the learner's features onto the reference's.
    ///
    /// Fails exactly when either side has no frames. On success the report
    /// is a faithful summary of a cheapest banded alignment path, as
    /// `report_ok` states.
    pub fn align(
        &self,
        reference: &PronunciationFeatures,
        learner: &PronunciationFeatures,
    ) -> (res: Result<AlignmentReport, PronunciationError>)
        requires
            self.wf(),
            reference.wf(),
            learner.wf(),
        ensures
            res is Ok <==> (reference.frame_count > 0 && learner.frame_count > 0),
            res matches Err(e) ==> e.spec_message() == (if reference.frame_count == 0 {
                "reference features contain no frames for alignment"@
            } else {
                "learner features contain no frames for alignment"@
            }),
            res matches Ok(rep) ==> some_report_ok(
                *reference,
                *learner,
                self.weights,
                self.warp_band as int,
                self.segment_frames as int,
                rep,
            ),
    {
        let checked = ensure_features(reference, learner);
        if let Err(e) = checked {
            return Err(e);
        }
        let report = run_alignment(
            reference,
            learner,
            &self.weights,
            self.warp_band,
            self.segment_frames,
        );
        Ok(report)
    }
}

/// Runs the full pipeline on nonempty inputs: grid, terminal cell,
/// backtrace, segmentation and confidence.
#[verifier::rlimit(100)]
#[verifier::spinoff_prover]
fn run_alignment(
    reference: &PronunciationFeatures,
    learner: &PronunciationFeatures,
    weights: &AlignmentWeights,
    band: usize,
    seg: usize,
) -> (rep: AlignmentReport)
    requires
        reference.wf(),
        learner.wf(),
        weights.wf(),
        band <= 1_000_000,
        1 <= seg <= 100_000,
        reference.frame_count > 0,
        learner.frame_count > 0,
    ensures
        some_report_ok(*reference, *learner, *weights, band as int, seg as int, rep),
{
    let grid = build_cost_grid(reference, learner, band, weights);
    let terminal = match terminal_cell(reference, learner, Ghost(*weights), band, &grid) {
        Ok(t) => t,
        Err(_) => {
            // terminal_cell promises success on nonempty inputs
            proof {
                assert(false);
            }
            (0, 0)
        },
    };
    let path = trace_optimal_path(reference, learner, Ghost(*weights), band, &grid, terminal);
    assemble_report(reference, learner, Ghost(*weights), band, seg, &grid, &path)
}

/// Summarizes the path and the grid into the final report.
#[verifier::rlimit(100)]
#[verifier::spinoff_prover]
fn assemble_report(
    reference: &PronunciationFeatures,
    learner: &PronunciationFeatures,
    Ghost(w): Ghost<AlignmentWeights>,
    band: usize,
    seg: usize,
    grid: &Vec<Vec<Cell>>,
    path: &Vec<PathPoint>,
) -> (rep: AlignmentReport)
    requires
        reference.wf(),
        learner.wf(),
        w.wf(),
        band <= 1_000_000,
        1 <= seg <= 100_000,
        grid_ok(*reference, *learner, w, band as int, grid@),
        path_ok(*reference, *learner, w, band as int, path@),
        path@.len() <= 2 * MAX_FRAMES,
        terminal_ok(*reference, *learner, w, band as int, path@.last().row as int,
            path@.last().col as int),
        locals_sum(path@, path@.len() as int) == cell_cost_spec(
            *reference,
            *learner,
            w,
            band as int,
            path@.last().row as int,
            path@.last().col as int,
        ).unwrap(),
    ensures
        some_report_ok(*reference, *learner, w, band as int, seg as int, rep),
{
    let summary = summarise_segments(
        reference,
        learner,
        Ghost(w),
        Ghost(band as int),
        path,
        seg,
    );
    let confidence = confidence_from_cost(reference, learner, Ghost(w), Ghost(band as int), grid);
    let report = AlignmentReport {
        phonemes: summary.phonemes,
        total_duration_ms: (reference.frame_count as u64) * 10,
        reference_path_cost: summary.total_cost,
        learner_path_cost: summary.total_cost,
        global_time_offset_mms: summary.global_offset,
        confidence,
        reference_energy: copy_vec(&reference.energy),
        learner_energy: copy_vec(&learner.energy),
        similarity_band: summary.similarity_band,
        contour_band: Vec::new(),
        reference_pitch: copy_vec(&reference.pitch_contour),
        learner_pitch: copy_vec(&learner.pitch_contour),
    };
    proof {
        lemma_report_witness(
            *reference,
            *learner,
            w,
            band as int,
            seg as int,
            path@,
            report,
        );
    }
    report
}

} // verus!
