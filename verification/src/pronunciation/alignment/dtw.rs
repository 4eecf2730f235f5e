//! Monotonic dynamic time warping between reference phoneme templates and
//! learner frames, for transcript-driven batch alignment: each template
//! claims one contiguous learner window, and the windows partition the
//! learner frames in order.

use vstd::prelude::*;

use crate::pronunciation::alignment::templates::{ensure_inputs, range_sum, PhonemeTemplate};
use crate::pronunciation::{series_wf, PronunciationError, PronunciationFeatures, FEATURE_LIMIT,
    MAX_FRAMES, MAX_WIDTH};

verus! {

/// Frame hop of the feature stream, in milliseconds.
pub const TEMPLATE_FRAME_HOP_MS: u64 = 10;

/// Largest possible segment cost: the root-mean spectral distance plus the
/// energy penalty.
pub const MAX_SEGMENT_COST: i64 = 200_000_000;

/// Alignment outcome produced by the template DTW solver.
#[derive(Debug)]
pub struct DtwAlignment {
    pub segments: Vec<AlignmentSegment>,
    pub total_cost: i64,
}

/// Per-phoneme timing information derived from warping paths. Costs and
/// similarity are milli-units.
#[derive(Debug)]
pub struct AlignmentSegment {
    pub symbol: String,
    pub learner_start_frame: usize,
    pub learner_end_frame: usize,
    pub reference_start_frame: usize,
    pub reference_end_frame: usize,
    pub cost: i64,
    pub similarity: i64,
}

/// `r` is the integer square root of `x`.
pub open spec fn is_sqrt(x: int, r: int) -> bool {
    &&& 0 <= r
    &&& r * r <= x
    &&& x < (r + 1) * (r + 1)
}

/// Sum of squared differences over the first `n` paired entries.
pub open spec fn pair_sq(row: Seq<i64>, cent: Seq<i64>, n: int) -> int
    decreases n,
{
    if n <= 0 {
        0int
    } else {
        pair_sq(row, cent, n - 1) + (row[n - 1] - cent[n - 1]) * (row[n - 1] - cent[n - 1])
    }
}

/// Shared width of a frame row and a centroid.
pub open spec fn pair_len(row: Seq<i64>, cent: Seq<i64>) -> int {
    if row.len() <= cent.len() {
        row.len() as int
    } else {
        cent.len() as int
    }
}

/// Total squared distance between the centroid and the MFCC rows `[s, e)`.
pub open spec fn sq_total(cent: Seq<i64>, m: Seq<Vec<i64>>, s: int, e: int) -> int
    decreases e - s,
{
    if e <= s {
        0int
    } else {
        sq_total(cent, m, s, e - 1) + pair_sq(m[e - 1]@, cent, pair_len(m[e - 1]@, cent))
    }
}

/// Absolute value.
pub open spec fn abs_d(v: int) -> int {
    if v < 0 {
        -v
    } else {
        v
    }
}

/// What the cost of matching a template against learner frames `[s, e)`
/// must be: the root of the mean squared spectral distance plus the
/// absolute average-energy difference.
pub open spec fn segment_cost_ok(
    t: PhonemeTemplate,
    f: PronunciationFeatures,
    s: int,
    e: int,
    c: int,
) -> bool {
    exists|d: int|
        #![trigger is_sqrt(sq_total(t.centroid@, f.mfcc@, s, e) / (e - s), d)]
        is_sqrt(sq_total(t.centroid@, f.mfcc@, s, e) / (e - s), d) && c == d + abs_d(
            range_sum(f.energy@, s, e) / (e - s) - t.average_energy,
        )
}

/// Similarity derived from a non-negative cost: `1 / (1 + cost)` in
/// milli-units.
pub open spec fn similarity_of(cost: int) -> int {
    1_000_000int / (1000 + (if cost >= 0 {
        cost
    } else {
        0int
    }))
}

/// The unique cost `segment_cost_ok` admits for a window.
pub open spec fn seg_cost_of(
    t: PhonemeTemplate,
    f: PronunciationFeatures,
    s: int,
    e: int,
) -> int {
    choose|c: int| segment_cost_ok(t, f, s, e, c)
}

proof fn lemma_sqrt_unique(x: int, r1: int, r2: int)
    requires
        is_sqrt(x, r1),
        is_sqrt(x, r2),
    ensures
        r1 == r2,
{
    assert(r1 == r2) by (nonlinear_arith)
        requires
            0 <= r1,
            0 <= r2,
            r1 * r1 <= x,
            x < (r1 + 1) * (r1 + 1),
            r2 * r2 <= x,
            x < (r2 + 1) * (r2 + 1);
}

/// The integer square root is unique, so a window's cost is too.
pub proof fn lemma_seg_cost_unique(
    t: PhonemeTemplate,
    f: PronunciationFeatures,
    s: int,
    e: int,
    c: int,
)
    requires
        segment_cost_ok(t, f, s, e, c),
    ensures
        c == seg_cost_of(t, f, s, e),
{
    let c0 = seg_cost_of(t, f, s, e);
    assert(segment_cost_ok(t, f, s, e, c0));
    let d1 = choose|d: int|
        #![trigger is_sqrt(sq_total(t.centroid@, f.mfcc@, s, e) / (e - s), d)]
        is_sqrt(sq_total(t.centroid@, f.mfcc@, s, e) / (e - s), d) && c == d + abs_d(
            range_sum(f.energy@, s, e) / (e - s) - t.average_energy,
        );
    let d2 = choose|d: int|
        #![trigger is_sqrt(sq_total(t.centroid@, f.mfcc@, s, e) / (e - s), d)]
        is_sqrt(sq_total(t.centroid@, f.mfcc@, s, e) / (e - s), d) && c0 == d + abs_d(
            range_sum(f.energy@, s, e) / (e - s) - t.average_energy,
        );
    lemma_sqrt_unique(sq_total(t.centroid@, f.mfcc@, s, e) / (e - s), d1, d2);
}

/// Sum over templates `[idx, ts.len())` of the unique window costs held in
/// the reversed range list, whose entry `m - 1 - t` is template `t`'s
/// window.
pub open spec fn tail_cost(
    ts: Seq<PhonemeTemplate>,
    f: PronunciationFeatures,
    rev: Seq<(usize, usize)>,
    m: int,
    idx: int,
) -> int
    decreases m - idx,
{
    if idx >= m {
        0int
    } else {
        seg_cost_of(ts[idx], f, rev[m - 1 - idx].0 as int, rev[m - 1 - idx].1 as int)
            + tail_cost(ts, f, rev, m, idx + 1)
    }
}

/// Sum over templates `[0, k)` of the same unique window costs.
pub open spec fn head_cost(
    ts: Seq<PhonemeTemplate>,
    f: PronunciationFeatures,
    rev: Seq<(usize, usize)>,
    m: int,
    k: int,
) -> int
    decreases k,
{
    if k <= 0 {
        0int
    } else {
        head_cost(ts, f, rev, m, k - 1) + seg_cost_of(
            ts[k - 1],
            f,
            rev[m - k].0 as int,
            rev[m - k].1 as int,
        )
    }
}

/// Sum of the first `k` segments' recorded costs.
pub open spec fn seg_costs_sum(segments: Seq<AlignmentSegment>, k: int) -> int
    decreases k,
{
    if k <= 0 {
        0int
    } else {
        seg_costs_sum(segments, k - 1) + segments[k - 1].cost
    }
}

/// The tail sum reads only indices below the reversed list's length, so
/// pushing one more window preserves it.
proof fn lemma_tail_cost_push(
    ts: Seq<PhonemeTemplate>,
    f: PronunciationFeatures,
    b: Seq<(usize, usize)>,
    x: (usize, usize),
    m: int,
    idx: int,
)
    requires
        0 <= idx,
        m - idx <= b.len(),
    ensures
        tail_cost(ts, f, b.push(x), m, idx) == tail_cost(ts, f, b, m, idx),
    decreases m - idx,
{
    if idx < m {
        lemma_tail_cost_push(ts, f, b, x, m, idx + 1);
        assert(b.push(x)[m - 1 - idx] == b[m - 1 - idx]);
    }
}

/// The segment sum reads only the first `k` segments, so pushing one more
/// preserves it.
proof fn lemma_seg_costs_prefix(a: Seq<AlignmentSegment>, b: Seq<AlignmentSegment>, k: int)
    requires
        k <= a.len(),
        k <= b.len(),
        forall|q: int| 0 <= q < k ==> a[q] == b[q],
    ensures
        seg_costs_sum(a, k) == seg_costs_sum(b, k),
    decreases k,
{
    if k > 0 {
        lemma_seg_costs_prefix(a, b, k - 1);
    }
}

/// The head and tail sums split one total: walking the split point from
/// either end yields the same figure.
proof fn lemma_head_tail(
    ts: Seq<PhonemeTemplate>,
    f: PronunciationFeatures,
    rev: Seq<(usize, usize)>,
    m: int,
    k: int,
)
    requires
        0 <= k <= m,
        m == ts.len(),
    ensures
        head_cost(ts, f, rev, m, k) + tail_cost(ts, f, rev, m, k) == tail_cost(ts, f, rev, m, 0),
    decreases k,
{
    if k > 0 {
        lemma_head_tail(ts, f, rev, m, k - 1);
        assert(tail_cost(ts, f, rev, m, k - 1) == seg_cost_of(
            ts[k - 1],
            f,
            rev[m - 1 - (k - 1)].0 as int,
            rev[m - 1 - (k - 1)].1 as int,
        ) + tail_cost(ts, f, rev, m, k));
    }
}

/// Each reachable cell of a filled table takes its cost from its recorded
/// split point: the reachable cell above it plus that window's unique cost.
pub open spec fn dp_linked(
    ts: Seq<PhonemeTemplate>,
    f: PronunciationFeatures,
    dp: Seq<Vec<i64>>,
    valid: Seq<Vec<bool>>,
    backtrack: Seq<Vec<usize>>,
    n: int,
) -> bool {
    &&& dp.len() > 0 ==> (forall|q: int| 0 <= q <= n ==> (#[trigger] valid[0]@[q]) == (q == 0))
    &&& dp.len() > 0 ==> dp[0]@[0] == 0
    &&& forall|a: int, q: int|
        1 <= a < dp.len() && 0 <= q <= n && (#[trigger] valid[a]@[q]) ==> backtrack[a]@[q] < q
            && a - 1 <= backtrack[a]@[q] && valid[a - 1]@[backtrack[a]@[q] as int] && dp[a]@[q]
            == dp[a - 1]@[backtrack[a]@[q] as int] + seg_cost_of(
            ts[a - 1],
            f,
            backtrack[a]@[q] as int,
            q,
        )
}

proof fn lemma_pair_sq_bounds(row: Seq<i64>, cent: Seq<i64>, n: int)
    requires
        0 <= n <= row.len(),
        n <= cent.len(),
        series_wf(row),
        series_wf(cent),
    ensures
        0 <= pair_sq(row, cent, n) <= n * (4 * FEATURE_LIMIT * FEATURE_LIMIT),
    decreases n,
{
    if n > 0 {
        lemma_pair_sq_bounds(row, cent, n - 1);
        let d = row[n - 1] - cent[n - 1];
        assert(0 <= d * d <= 4 * FEATURE_LIMIT * FEATURE_LIMIT) by (nonlinear_arith)
            requires
                -(2 * FEATURE_LIMIT) <= d <= 2 * FEATURE_LIMIT;
        assert((n - 1) * (4 * FEATURE_LIMIT * FEATURE_LIMIT) + 4 * FEATURE_LIMIT * FEATURE_LIMIT
            == n * (4 * FEATURE_LIMIT * FEATURE_LIMIT)) by (nonlinear_arith);
    }
}

/// Binary-search integer square root.
fn isqrt(x: u64) -> (r: u64)
    requires
        x <= 0x3FFF_FFFF_FFFF_FFFF,
    ensures
        is_sqrt(x as int, r as int),
{
    let mut lo: u64 = 0;
    let mut hi: u64 = 2_147_483_648;
    proof {
        assert((2_147_483_648int) * (2_147_483_648int) > 0x3FFF_FFFF_FFFF_FFFF)
            by (nonlinear_arith);
    }
    while lo + 1 < hi
        invariant
            lo < hi,
            hi <= 2_147_483_648,
            x <= 0x3FFF_FFFF_FFFF_FFFF,
            (lo as int) * (lo as int) <= x as int,
            (x as int) < (hi as int) * (hi as int),
        decreases hi - lo,
    {
        let mid = lo + (hi - lo) / 2;
        proof {
            assert((mid as int) * (mid as int) <= (2_147_483_648int) * (2_147_483_648int))
                by (nonlinear_arith)
                requires
                    0 <= (mid as int) <= 2_147_483_648;
        }
        if mid * mid <= x {
            lo = mid;
        } else {
            hi = mid;
        }
    }
    lo
}

/// The spectral-plus-energy cost of matching `template` against learner
/// frames `[start, end)`. Fails exactly on an empty range.
pub fn segment_cost(
    template: &PhonemeTemplate,
    features: &PronunciationFeatures,
    start: usize,
    end: usize,
) -> (res: Result<i64, PronunciationError>)
    requires
        template.wf(),
        features.wf(),
        end <= features.frame_count,
    ensures
        res is Ok <==> start < end,
        res matches Ok(c) ==> segment_cost_ok(*template, *features, start as int, end as int,
            c as int,
        ) && 0 <= c <= MAX_SEGMENT_COST,
{
    if start >= end {
        return Err(PronunciationError::new("segment cost requires a non-empty frame range"));
    }
    let span = (end - start) as u64;
    let mut total: u128 = 0;
    let mut i = start;
    while i < end
        invariant
            template.wf(),
            features.wf(),
            start <= i <= end,
            end <= features.frame_count,
            total == sq_total(template.centroid@, features.mfcc@, start as int, i as int),
            total <= (i - start) as int * (MAX_WIDTH * (4 * FEATURE_LIMIT * FEATURE_LIMIT)),
        decreases end - i,
    {
        let row = &features.mfcc[i];
        let n = if row.len() <= template.centroid.len() {
            row.len()
        } else {
            template.centroid.len()
        };
        let mut row_sq: u128 = 0;
        let mut c: usize = 0;
        while c < n
            invariant
                template.wf(),
                features.wf(),
                i < features.frame_count,
                row == features.mfcc@[i as int],
                n <= row@.len(),
                n <= template.centroid@.len(),
                n <= MAX_WIDTH,
                c <= n,
                row_sq == pair_sq(row@, template.centroid@, c as int),
                row_sq <= c as int * (4 * FEATURE_LIMIT * FEATURE_LIMIT),
            decreases n - c,
        {
            proof {
                assert(series_wf(features.mfcc@[i as int]@));
                assert(-FEATURE_LIMIT <= row@[c as int] <= FEATURE_LIMIT);
                let d = row@[c as int] - template.centroid@[c as int];
                assert(0 <= d * d <= 4 * FEATURE_LIMIT * FEATURE_LIMIT) by (nonlinear_arith)
                    requires
                        -(2 * FEATURE_LIMIT) <= d <= 2 * FEATURE_LIMIT;
                assert(c as int * (4 * FEATURE_LIMIT * FEATURE_LIMIT) + 4 * FEATURE_LIMIT
                    * FEATURE_LIMIT == (c + 1) as int * (4 * FEATURE_LIMIT * FEATURE_LIMIT))
                    by (nonlinear_arith);
                assert(c as int * (4 * FEATURE_LIMIT * FEATURE_LIMIT) <= MAX_WIDTH as int * (4
                    * FEATURE_LIMIT * FEATURE_LIMIT)) by (nonlinear_arith)
                    requires
                        0 <= c as int <= MAX_WIDTH;
            }
            let d: i64 = row[c] - template.centroid[c];
            let sq: u128 = ((d as i128) * (d as i128)) as u128;
            row_sq = row_sq + sq;
            c = c + 1;
        }
        proof {
            assert(pair_sq(row@, template.centroid@, n as int) == pair_sq(
                row@,
                template.centroid@,
                pair_len(row@, template.centroid@),
            ));
            assert((i - start) as int * (MAX_WIDTH * (4 * FEATURE_LIMIT * FEATURE_LIMIT))
                + MAX_WIDTH * (4 * FEATURE_LIMIT * FEATURE_LIMIT) == (i + 1 - start) as int * (
            MAX_WIDTH * (4 * FEATURE_LIMIT * FEATURE_LIMIT))) by (nonlinear_arith);
            assert((i - start) as int * (MAX_WIDTH * (4 * FEATURE_LIMIT * FEATURE_LIMIT))
                <= MAX_FRAMES as int * (MAX_WIDTH * (4 * FEATURE_LIMIT * FEATURE_LIMIT)))
                by (nonlinear_arith)
                requires
                    0 <= (i - start) as int <= MAX_FRAMES;
            assert(n as int * (4 * FEATURE_LIMIT * FEATURE_LIMIT) <= MAX_WIDTH as int * (4
                * FEATURE_LIMIT * FEATURE_LIMIT)) by (nonlinear_arith)
                requires
                    0 <= n as int <= MAX_WIDTH;
        }
        total = total + row_sq;
        i = i + 1;
    }
    proof {
        assert((i - start) as int * (MAX_WIDTH * (4 * FEATURE_LIMIT * FEATURE_LIMIT))
            <= MAX_FRAMES as int * (MAX_WIDTH * (4 * FEATURE_LIMIT * FEATURE_LIMIT)))
            by (nonlinear_arith)
            requires
                0 <= (i - start) as int <= MAX_FRAMES;
    }
    let mean_sq: u128 = total / (span as u128);
    proof {
        vstd::arithmetic::div_mod::lemma_div_is_ordered(
            total as int,
            (end - start) as int * (MAX_WIDTH * (4 * FEATURE_LIMIT * FEATURE_LIMIT)),
            span as int,
        );
        assert((end - start) as int * (MAX_WIDTH * (4 * FEATURE_LIMIT * FEATURE_LIMIT)) / (
        span as int) == MAX_WIDTH * (4 * FEATURE_LIMIT * FEATURE_LIMIT)) by (nonlinear_arith)
            requires
                span as int == (end - start) as int,
                span >= 1;
        vstd::arithmetic::div_mod::lemma_div_pos_is_pos(total as int, span as int);
    }
    let distance = isqrt(mean_sq as u64);
    proof {
        assert((distance as int) * (distance as int) <= MAX_WIDTH as int * (4 * FEATURE_LIMIT
            * FEATURE_LIMIT));
        assert(distance as int <= 130_000_000) by (nonlinear_arith)
            requires
                0 <= distance as int,
                (distance as int) * (distance as int) <= MAX_WIDTH as int * (4 * FEATURE_LIMIT
                    * FEATURE_LIMIT);
    }
    let esum_total = energy_sum_range(features, start, end);
    let avg_energy = crate::num::div_floor(esum_total, (end - start) as i64);
    proof {
        lemma_energy_mean_bounds(esum_total as int, (end - start) as int);
    }
    let diff = avg_energy - template.average_energy;
    let penalty = if diff < 0 {
        -diff
    } else {
        diff
    };
    let cost = (distance as i64) + penalty;
    Ok(cost)
}

proof fn lemma_energy_mean_bounds(sum: int, n: int)
    requires
        n >= 1,
        -(n * FEATURE_LIMIT) <= sum <= n * FEATURE_LIMIT,
    ensures
        -FEATURE_LIMIT <= sum / n <= FEATURE_LIMIT,
{
    vstd::arithmetic::div_mod::lemma_div_is_ordered(sum, n * FEATURE_LIMIT, n);
    vstd::arithmetic::div_mod::lemma_div_is_ordered(-(n * FEATURE_LIMIT), sum, n);
    assert(-(n * FEATURE_LIMIT) == n * (-FEATURE_LIMIT)) by (nonlinear_arith);
    vstd::arithmetic::div_mod::lemma_div_multiples_vanish(FEATURE_LIMIT as int, n);
    vstd::arithmetic::div_mod::lemma_div_multiples_vanish(-FEATURE_LIMIT as int, n);
}

/// Sum of the energy series over `[start, end)`.
fn energy_sum_range(features: &PronunciationFeatures, start: usize, end: usize) -> (r: i64)
    requires
        features.wf(),
        start <= end,
        end <= features.frame_count,
    ensures
        r == range_sum(features.energy@, start as int, end as int),
        -((end - start) as int * FEATURE_LIMIT) <= r <= (end - start) as int * FEATURE_LIMIT,
{
    let mut sum: i64 = 0;
    let mut i = start;
    while i < end
        invariant
            features.wf(),
            start <= i <= end,
            end <= features.frame_count,
            sum == range_sum(features.energy@, start as int, i as int),
            -((i - start) as int * FEATURE_LIMIT) <= sum <= (i - start) as int * FEATURE_LIMIT,
        decreases end - i,
    {
        proof {
            assert((i - start) as int * FEATURE_LIMIT + FEATURE_LIMIT == (i + 1 - start) as int
                * FEATURE_LIMIT) by (nonlinear_arith);
            assert((i - start) as int * FEATURE_LIMIT <= MAX_FRAMES as int * FEATURE_LIMIT)
                by (nonlinear_arith)
                requires
                    0 <= (i - start) as int <= MAX_FRAMES;
        }
        sum = sum + features.energy[i];
        i = i + 1;
    }
    proof {
        assert((i - start) as int * FEATURE_LIMIT <= MAX_FRAMES as int * FEATURE_LIMIT)
            by (nonlinear_arith)
            requires
                0 <= (i - start) as int <= MAX_FRAMES;
    }
    sum
}

/// Converts frame indices to millisecond offsets using the configured hop.
pub fn frames_to_ms(start: usize, end: usize) -> (r: (u64, u64))
    requires
        start <= 0xFFFF_FFFF,
        end <= 0xFFFF_FFFF,
    ensures
        r.0 == start * TEMPLATE_FRAME_HOP_MS,
        r.1 == end * TEMPLATE_FRAME_HOP_MS,
{
    ((start as u64) * TEMPLATE_FRAME_HOP_MS, (end as u64) * TEMPLATE_FRAME_HOP_MS)
}

/// Every table value is a cost a row of its depth can reach.
pub open spec fn dp_bounded(dp: Seq<Vec<i64>>) -> bool {
    forall|a: int, j: int|
        0 <= a < dp.len() && 0 <= j < dp[a]@.len() ==> 0 <= #[trigger] dp[a]@[j] <= a
            * MAX_SEGMENT_COST
}

/// The structural facts `align_templates` promises of a successful
/// alignment: one segment per template, learner windows contiguous and
/// covering all learner frames, each segment's cost and similarity derived
/// from its own window.
pub open spec fn dtw_alignment_ok(
    templates: Seq<PhonemeTemplate>,
    learner: PronunciationFeatures,
    a: DtwAlignment,
) -> bool {
    &&& a.segments@.len() == templates.len()
    &&& a.total_cost >= 0
    &&& a.total_cost == seg_costs_sum(a.segments@, a.segments@.len() as int)
    &&& forall|k: int|
        0 <= k < a.segments@.len() ==> {
            let seg = #[trigger] a.segments@[k];
            &&& seg.symbol@ == templates[k].symbol@
            &&& seg.reference_start_frame == templates[k].start_frame
            &&& seg.reference_end_frame == templates[k].end_frame
            &&& seg.learner_start_frame < seg.learner_end_frame
            &&& seg.learner_end_frame <= learner.frame_count
            &&& (k == 0 ==> seg.learner_start_frame == 0)
            &&& (k == a.segments@.len() - 1 ==> seg.learner_end_frame == learner.frame_count)
            &&& (k > 0 ==> seg.learner_start_frame == a.segments@[k - 1].learner_end_frame)
            &&& segment_cost_ok(templates[k], learner, seg.learner_start_frame as int,
                seg.learner_end_frame as int, seg.cost as int)
            &&& seg.similarity == similarity_of(seg.cost as int)
        }
}

/// Executes a monotonic dynamic time warping between reference templates
/// and learner frames.
#[verifier::rlimit(100)]
#[verifier::spinoff_prover]
pub fn align_templates(templates: &Vec<PhonemeTemplate>, learner: &PronunciationFeatures) -> (res:
    Result<DtwAlignment, PronunciationError>)
    requires
        learner.wf(),
        forall|k: int| 0 <= k < templates@.len() ==> (#[trigger] templates@[k]).wf(),
        templates@.len() <= MAX_FRAMES,
    ensures
        res is Ok ==> templates@.len() > 0 && learner.frame_count >= templates@.len(),
        res matches Ok(a) ==> dtw_alignment_ok(templates@, *learner, a),
{
    let checked = ensure_inputs(learner.frame_count, templates.len());
    if let Err(e) = checked {
        return Err(e);
    }
    let m = templates.len();
    let n = learner.frame_count;
    // dp[i][j]: cheapest cost of matching the first i templates onto the
    // first j learner frames; backtrack records the split point.
    let mut dp: Vec<Vec<i64>> = Vec::new();
    let mut valid: Vec<Vec<bool>> = Vec::new();
    let mut backtrack: Vec<Vec<usize>> = Vec::new();
    let mut row0: Vec<i64> = Vec::new();
    let mut vrow0: Vec<bool> = Vec::new();
    let mut brow0: Vec<usize> = Vec::new();
    let mut j: usize = 0;
    while j <= n
        invariant
            n <= MAX_FRAMES,
            row0@.len() == j,
            vrow0@.len() == j,
            brow0@.len() == j,
            j <= n + 1,
            forall|q: int| 0 <= q < j ==> #[trigger] row0@[q] == 0,
            forall|q: int| 0 <= q < j ==> #[trigger] vrow0@[q] == (q == 0),
        decreases n + 1 - j,
    {
        row0.push(0);
        vrow0.push(j == 0);
        brow0.push(0);
        j = j + 1;
    }
    dp.push(row0);
    valid.push(vrow0);
    backtrack.push(brow0);
    let mut ti: usize = 1;
    while ti <= m
        invariant
            learner.wf(),
            forall|k: int| 0 <= k < templates@.len() ==> (#[trigger] templates@[k]).wf(),
            m == templates@.len(),
            1 <= m <= MAX_FRAMES,
            n == learner.frame_count,
            m <= n,
            1 <= ti <= m + 1,
            dp@.len() == ti,
            valid@.len() == ti,
            backtrack@.len() == ti,
            forall|a: int| 0 <= a < ti ==> (#[trigger] dp@[a])@.len() == n + 1,
            forall|a: int| 0 <= a < ti ==> (#[trigger] valid@[a])@.len() == n + 1,
            forall|a: int| 0 <= a < ti ==> (#[trigger] backtrack@[a])@.len() == n + 1,
            dp_bounded(dp@),
            dp_linked(templates@, *learner, dp@, valid@, backtrack@, n as int),
        decreases m + 1 - ti,
    {
        let template = &templates[ti - 1];
        let mut dp_row: Vec<i64> = Vec::new();
        let mut valid_row: Vec<bool> = Vec::new();
        let mut bt_row: Vec<usize> = Vec::new();
        let mut j: usize = 0;
        while j <= n
            invariant
                learner.wf(),
                template.wf(),
                template == templates@[ti as int - 1],
                m == templates@.len(),
                1 <= ti <= m <= MAX_FRAMES,
                n == learner.frame_count,
                n <= MAX_FRAMES,
                j <= n + 1,
                dp@.len() == ti,
                valid@.len() == ti,
                forall|a: int| 0 <= a < ti ==> (#[trigger] dp@[a])@.len() == n + 1,
                forall|a: int| 0 <= a < ti ==> (#[trigger] valid@[a])@.len() == n + 1,
                dp_bounded(dp@),
                dp_linked(templates@, *learner, dp@, valid@, backtrack@, n as int),
                backtrack@.len() == ti,
                dp_row@.len() == j,
                valid_row@.len() == j,
                bt_row@.len() == j,
                forall|q: int|
                    0 <= q < j ==> 0 <= #[trigger] dp_row@[q] <= (ti as int) * MAX_SEGMENT_COST,
                forall|q: int|
                    0 <= q < j && (#[trigger] valid_row@[q]) ==> bt_row@[q] < q && ti - 1
                        <= bt_row@[q] && valid@[ti - 1]@[bt_row@[q] as int] && dp_row@[q]
                        == dp@[ti - 1]@[bt_row@[q] as int] + seg_cost_of(
                        templates@[ti - 1],
                        *learner,
                        bt_row@[q] as int,
                        q,
                    ),
            decreases n + 1 - j,
        {
            let mut best_cost: i64 = 0;
            let mut best_k: usize = 0;
            let mut found = false;
            let start_k = ti - 1;
            let mut k: usize = start_k;
            while k < j
                invariant
                    learner.wf(),
                    template.wf(),
                    template == templates@[ti as int - 1],
                    m == templates@.len(),
                    1 <= ti,
                    start_k == ti - 1,
                    start_k <= k <= j || k == start_k,
                    j <= n,
                    n == learner.frame_count,
                    dp@.len() == ti,
                    valid@.len() == ti,
                    forall|a: int| 0 <= a < ti ==> (#[trigger] dp@[a])@.len() == n + 1,
                    forall|a: int| 0 <= a < ti ==> (#[trigger] valid@[a])@.len() == n + 1,
                    dp_bounded(dp@),
                    ti <= MAX_FRAMES,
                    found ==> start_k <= best_k < j && 0 <= best_cost <= (ti as int)
                        * MAX_SEGMENT_COST,
                    found ==> valid@[ti - 1]@[best_k as int] && best_cost == dp@[ti - 1]@[
                        best_k as int] + seg_cost_of(
                        templates@[ti - 1],
                        *learner,
                        best_k as int,
                        j as int,
                    ),
                    !found ==> best_cost == 0 && best_k == 0,
                decreases j - k,
            {
                if valid[ti - 1][k] {
                    let previous = dp[ti - 1][k];
                    let seg = match segment_cost(template, learner, k, j) {
                        Ok(c) => c,
                        Err(e) => {
                            return Err(e);
                        },
                    };
                    proof {
                        assert(0 <= previous <= (ti as int - 1) * MAX_SEGMENT_COST);
                        assert((ti as int - 1) * MAX_SEGMENT_COST + MAX_SEGMENT_COST == (
                        ti as int) * MAX_SEGMENT_COST) by (nonlinear_arith);
                        assert((ti as int) * MAX_SEGMENT_COST <= MAX_FRAMES as int
                            * MAX_SEGMENT_COST) by (nonlinear_arith)
                            requires
                                0 <= ti as int <= MAX_FRAMES;
                        lemma_seg_cost_unique(
                            templates@[ti as int - 1],
                            *learner,
                            k as int,
                            j as int,
                            seg as int,
                        );
                    }
                    let candidate = previous + seg;
                    if !found || candidate < best_cost {
                        best_cost = candidate;
                        best_k = k;
                        found = true;
                    }
                }
                k = k + 1;
            }
            dp_row.push(best_cost);
            valid_row.push(found);
            bt_row.push(best_k);
            j = j + 1;
        }
        dp.push(dp_row);
        valid.push(valid_row);
        backtrack.push(bt_row);
        proof {
            assert(dp_linked(templates@, *learner, dp@, valid@, backtrack@, n as int));
        }
        ti = ti + 1;
    }
    if !valid[m][n] {
        return Err(PronunciationError::new("failed to compute finite DTW alignment cost"));
    }
    let total_cost = dp[m][n];
    // walk the recorded split points back to the start, collecting windows
    let mut rev_ranges: Vec<(usize, usize)> = Vec::new();
    let mut end = n;
    let mut idx = m;
    while idx >= 1
        invariant
            learner.wf(),
            m >= 1,
            m == templates@.len(),
            n == learner.frame_count,
            idx <= m,
            end <= n,
            dp@.len() == m + 1,
            valid@.len() == m + 1,
            backtrack@.len() == m + 1,
            forall|a: int| 0 <= a <= m ==> (#[trigger] backtrack@[a])@.len() == n + 1,
            forall|a: int| 0 <= a <= m ==> (#[trigger] valid@[a])@.len() == n + 1,
            forall|a: int| 0 <= a <= m ==> (#[trigger] dp@[a])@.len() == n + 1,
            dp_linked(templates@, *learner, dp@, valid@, backtrack@, n as int),
            valid@[idx as int]@[end as int],
            total_cost == dp@[idx as int]@[end as int] + tail_cost(
                templates@,
                *learner,
                rev_ranges@,
                m as int,
                idx as int,
            ),
            rev_ranges@.len() == m - idx,
            forall|q: int|
                0 <= q < rev_ranges@.len() ==> (#[trigger] rev_ranges@[q]).0
                    < rev_ranges@[q].1 && rev_ranges@[q].1 <= n,
            forall|q: int|
                0 < q < rev_ranges@.len() ==> (#[trigger] rev_ranges@[q]).1
                    == rev_ranges@[q - 1].0,
            rev_ranges@.len() > 0 ==> rev_ranges@[0].1 == n && rev_ranges@.last().0 == end,
            rev_ranges@.len() == 0 ==> end == n,
        decreases idx,
    {
        let start = backtrack[idx][end];
        if start >= end {
            return Err(PronunciationError::new("invalid DTW backtrack encountered"));
        }
        let ghost pre_rev = rev_ranges@;
        rev_ranges.push((start, end));
        proof {
            assert(rev_ranges@ == pre_rev.push((start, end)));
            lemma_tail_cost_push(
                templates@,
                *learner,
                pre_rev,
                (start, end),
                m as int,
                idx as int,
            );
            assert(rev_ranges@[m - idx] == (start, end));
            assert(tail_cost(templates@, *learner, rev_ranges@, m as int, idx as int - 1)
                == seg_cost_of(templates@[idx - 1], *learner, start as int, end as int)
                + tail_cost(templates@, *learner, rev_ranges@, m as int, idx as int));
        }
        end = start;
        idx = idx - 1;
    }
    proof {
        assert(end == 0);
        assert(total_cost == tail_cost(templates@, *learner, rev_ranges@, m as int, 0));
    }
    if end != 0 {
        return Err(PronunciationError::new("invalid DTW backtrack encountered"));
    }
    // build the segments in forward order
    let mut segments: Vec<AlignmentSegment> = Vec::new();
    let mut k: usize = 0;
    while k < m
        invariant
            learner.wf(),
            forall|kk: int| 0 <= kk < templates@.len() ==> (#[trigger] templates@[kk]).wf(),
            m == templates@.len(),
            1 <= m,
            n == learner.frame_count,
            k <= m,
            rev_ranges@.len() == m,
            forall|q: int|
                0 <= q < m ==> (#[trigger] rev_ranges@[q]).0 < rev_ranges@[q].1
                    && rev_ranges@[q].1 <= n,
            forall|q: int|
                0 < q < m ==> (#[trigger] rev_ranges@[q]).1 == rev_ranges@[q - 1].0,
            rev_ranges@[0].1 == n,
            rev_ranges@.last().0 == 0,
            segments@.len() == k,
            total_cost == tail_cost(templates@, *learner, rev_ranges@, m as int, 0),
            seg_costs_sum(segments@, k as int) == head_cost(
                templates@,
                *learner,
                rev_ranges@,
                m as int,
                k as int,
            ),
            forall|kk: int|
                0 <= kk < k as int ==> {
                    let seg = #[trigger] segments@[kk];
                    &&& seg.symbol@ == templates@[kk].symbol@
                    &&& seg.reference_start_frame == templates@[kk].start_frame
                    &&& seg.reference_end_frame == templates@[kk].end_frame
                    &&& seg.learner_start_frame == rev_ranges@[m - 1 - kk].0
                    &&& seg.learner_end_frame == rev_ranges@[m - 1 - kk].1
                    &&& seg.learner_start_frame < seg.learner_end_frame
                    &&& seg.learner_end_frame <= n
                    &&& segment_cost_ok(templates@[kk], *learner,
                        seg.learner_start_frame as int, seg.learner_end_frame as int,
                        seg.cost as int)
                    &&& seg.similarity == similarity_of(seg.cost as int)
                },
        decreases m - k,
    {
        let (start, seg_end) = rev_ranges[m - 1 - k];
        let template = &templates[k];
        let cost = match segment_cost(template, learner, start, seg_end) {
            Ok(c) => c,
            Err(e) => {
                return Err(e);
            },
        };
        let similarity = ((1_000_000u64) / ((1000 + cost) as u64)) as i64;
        proof {
            lemma_seg_cost_unique(
                templates@[k as int],
                *learner,
                start as int,
                seg_end as int,
                cost as int,
            );
        }
        let ghost pre_segments = segments@;
        segments.push(
            AlignmentSegment {
                symbol: template.symbol.as_str().to_owned(),
                learner_start_frame: start,
                learner_end_frame: seg_end,
                reference_start_frame: template.start_frame,
                reference_end_frame: template.end_frame,
                cost,
                similarity,
            },
        );
        proof {
            lemma_seg_costs_prefix(segments@, pre_segments, k as int);
            assert(seg_costs_sum(segments@, k as int + 1) == seg_costs_sum(segments@, k as int)
                + segments@[k as int].cost);
        }
        k = k + 1;
    }
    proof {
        assert forall|kk: int| 0 < kk < m implies (#[trigger] segments@[kk]).learner_start_frame
            == segments@[kk - 1].learner_end_frame by {
            assert(rev_ranges@[m - 1 - (kk - 1)].1 == rev_ranges@[m - 1 - kk + 1].1);
            assert(rev_ranges@[(m - 1 - kk) + 1].1 == rev_ranges@[m - 1 - kk].0);
        }
        assert(segments@[0].learner_start_frame == rev_ranges@[m - 1].0);
        assert(segments@[m - 1].learner_end_frame == rev_ranges@[0].1);
        lemma_head_tail(templates@, *learner, rev_ranges@, m as int, m as int);
        assert(total_cost == seg_costs_sum(segments@, segments@.len() as int));
    }
    Ok(DtwAlignment { segments, total_cost })
}

} // verus!
