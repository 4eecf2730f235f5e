//! Phoneme templates: deterministic per-phoneme spectral summaries built
//! by evenly partitioning a reference's frames.

use vstd::prelude::*;

use crate::pronunciation::{series_wf, PronunciationError, PronunciationFeatures,
    FEATURE_LIMIT, MAX_FRAMES, MAX_WIDTH};

verus! {

/// Aggregated spectral template representing one reference phoneme.
#[derive(Debug, Clone)]
pub struct PhonemeTemplate {
    pub symbol: String,
    pub centroid: Vec<i64>,
    pub average_energy: i64,
    pub start_frame: usize,
    pub end_frame: usize,
}

impl PhonemeTemplate {
    /// Bounds the alignment arithmetic needs of a template.
    pub open spec fn wf(&self) -> bool {
        &&& series_wf(self.centroid@)
        &&& self.centroid@.len() <= MAX_WIDTH
        &&& -FEATURE_LIMIT <= self.average_energy <= FEATURE_LIMIT
        &&& self.start_frame < self.end_frame
        &&& self.end_frame <= MAX_FRAMES
    }
}

/// There must be at least one phoneme and at least as many frames.
pub fn ensure_inputs(frame_count: usize, phoneme_count: usize) -> (res: Result<
    (),
    PronunciationError,
>)
    ensures
        res is Ok <==> (phoneme_count > 0 && frame_count >= phoneme_count),
        res matches Err(e) ==> e.spec_message() == (if phoneme_count == 0 {
            "phoneme sequence must contain at least one entry"@
        } else {
            "reference has fewer frames than phonemes"@
        }),
{
    if phoneme_count == 0 {
        return Err(PronunciationError::new("phoneme sequence must contain at least one entry"));
    }
    if frame_count < phoneme_count {
        return Err(PronunciationError::new("reference has fewer frames than phonemes"));
    }
    Ok(())
}

/// Width of partition segment `k`: the quotient, plus one for the first
/// `remainder` segments, but never empty.
pub open spec fn part_span(frame_count: int, phoneme_count: int, k: int) -> int {
    let base = frame_count / phoneme_count + (if k < frame_count % phoneme_count {
        1int
    } else {
        0int
    });
    if base >= 1 {
        base
    } else {
        1int
    }
}

/// Start of partition segment `k`: the spans before it, summed.
pub open spec fn part_start(frame_count: int, phoneme_count: int, k: int) -> int
    decreases k,
{
    if k <= 0 {
        0int
    } else {
        part_start(frame_count, phoneme_count, k - 1) + part_span(frame_count, phoneme_count, k - 1)
    }
}

/// Evenly partitions `frame_count` frames into `phoneme_count` contiguous
/// segments, earlier segments absorbing the remainder.
pub fn partition_frames(frame_count: usize, phoneme_count: usize) -> (segments: Vec<
    (usize, usize),
>)
    requires
        phoneme_count >= 1,
        phoneme_count <= frame_count,
        frame_count <= MAX_FRAMES,
    ensures
        segments@.len() == phoneme_count,
        forall|k: int|
            0 <= k < phoneme_count ==> (#[trigger] segments@[k]).0 == part_start(
                frame_count as int,
                phoneme_count as int,
                k,
            ) && segments@[k].1 == part_start(frame_count as int, phoneme_count as int, k)
                + part_span(frame_count as int, phoneme_count as int, k),
{
    let base = frame_count / phoneme_count;
    let remainder = frame_count % phoneme_count;
    let mut segments: Vec<(usize, usize)> = Vec::new();
    let mut start: usize = 0;
    for index in 0..phoneme_count
        invariant
            phoneme_count >= 1,
            phoneme_count <= frame_count <= MAX_FRAMES,
            base == frame_count as int / phoneme_count as int,
            remainder == frame_count as int % phoneme_count as int,
            segments@.len() == index,
            start == part_start(frame_count as int, phoneme_count as int, index as int),
            start <= frame_count,
            forall|k: int|
                0 <= k < index ==> (#[trigger] segments@[k]).0 == part_start(
                    frame_count as int,
                    phoneme_count as int,
                    k,
                ) && segments@[k].1 == part_start(frame_count as int, phoneme_count as int, k)
                    + part_span(frame_count as int, phoneme_count as int, k),
    {
        let bonus: usize = if index < remainder {
            1
        } else {
            0
        };
        let span: usize = if base + bonus >= 1 {
            base + bonus
        } else {
            1
        };
        proof {
            assert(span == part_span(frame_count as int, phoneme_count as int, index as int));
            lemma_partition_in_range(
                frame_count as int,
                phoneme_count as int,
                index as int + 1,
            );
        }
        let end = start + span;
        segments.push((start, end));
        start = end;
    }
    segments
}

/// Sum over rows `[s, e)` of column `c` of the matrix.
pub open spec fn col_sum(m: Seq<Vec<i64>>, c: int, s: int, e: int) -> int
    decreases e - s,
{
    if e <= s {
        0int
    } else {
        col_sum(m, c, s, e - 1) + m[e - 1]@[c]
    }
}

/// Sum over `[s, e)` of a series.
pub open spec fn range_sum(v: Seq<i64>, s: int, e: int) -> int
    decreases e - s,
{
    if e <= s {
        0int
    } else {
        range_sum(v, s, e - 1) + v[e - 1]
    }
}

/// What a template must hold for frames `[start, end)` of the features:
/// per-column means of the MFCC rows and the mean energy, with the
/// segment's frame bounds and its label.
pub open spec fn template_ok(
    f: PronunciationFeatures,
    start: int,
    end: int,
    symbol: Seq<char>,
    t: PhonemeTemplate,
) -> bool {
    let n = end - start;
    &&& t.symbol@ == symbol
    &&& t.start_frame == start
    &&& t.end_frame == end
    &&& t.centroid@.len() == f.width()
    &&& forall|c: int|
        0 <= c < t.centroid@.len() ==> #[trigger] t.centroid@[c] == div_floor_spec(
            col_sum(f.mfcc@, c, start, end),
            n,
        )
    &&& t.average_energy == div_floor_spec(range_sum(f.energy@, start, end), n)
}

/// Floor division (the spec-level `/`).
pub open spec fn div_floor_spec(a: int, b: int) -> int {
    a / b
}

proof fn lemma_mean_in_range(sum: int, n: int)
    requires
        n >= 1,
        -(n * FEATURE_LIMIT) <= sum <= n * FEATURE_LIMIT,
    ensures
        -FEATURE_LIMIT <= sum / n <= FEATURE_LIMIT,
{
    vstd::arithmetic::div_mod::lemma_div_is_ordered(sum, n * FEATURE_LIMIT, n);
    vstd::arithmetic::div_mod::lemma_div_is_ordered(-(n * FEATURE_LIMIT), sum, n);
    assert(-(n * FEATURE_LIMIT) == n * (-FEATURE_LIMIT)) by (nonlinear_arith);
    vstd::arithmetic::div_mod::lemma_div_multiples_vanish(FEATURE_LIMIT as int, n);
    vstd::arithmetic::div_mod::lemma_div_multiples_vanish(-FEATURE_LIMIT as int, n);
}

/// Summarizes frames `[start, end)` into one template.
fn template_for(symbol: &str, features: &PronunciationFeatures, start: usize, end: usize) -> (t:
    PhonemeTemplate)
    requires
        features.wf(),
        start < end,
        end <= features.frame_count,
    ensures
        template_ok(*features, start as int, end as int, symbol@, t),
        t.wf(),
{
    let n = (end - start) as i64;
    let width = if features.mfcc.len() == 0 {
        0
    } else {
        features.mfcc[0].len()
    };
    let mut centroid: Vec<i64> = Vec::new();
    for c in 0..width
        invariant
            features.wf(),
            start < end,
            end <= features.frame_count,
            n == end - start,
            width == features.width(),
            centroid@.len() == c,
            forall|cc: int|
                0 <= cc < c ==> #[trigger] centroid@[cc] == col_sum(
                    features.mfcc@,
                    cc,
                    start as int,
                    end as int,
                ) / (n as int) && -FEATURE_LIMIT <= centroid@[cc] <= FEATURE_LIMIT,
    {
        let mut sum: i64 = 0;
        let mut i = start;
        while i < end
            invariant
                features.wf(),
                start <= i <= end,
                end <= features.frame_count,
                c < width,
                width == features.width(),
                sum == col_sum(features.mfcc@, c as int, start as int, i as int),
                -((i - start) * FEATURE_LIMIT) <= sum <= (i - start) * FEATURE_LIMIT,
            decreases end - i,
        {
            proof {
                assert((i - start) * FEATURE_LIMIT + FEATURE_LIMIT == (i + 1 - start)
                    * FEATURE_LIMIT) by (nonlinear_arith);
                assert((i - start) * FEATURE_LIMIT <= MAX_FRAMES * FEATURE_LIMIT)
                    by (nonlinear_arith)
                    requires
                        0 <= i - start <= MAX_FRAMES;
                assert(series_wf(features.mfcc@[i as int]@));
            }
            sum = sum + features.mfcc[i][c];
            i = i + 1;
        }
        proof {
            assert((i - start) * FEATURE_LIMIT <= MAX_FRAMES * FEATURE_LIMIT) by (nonlinear_arith)
                requires
                    0 <= i - start <= MAX_FRAMES;
            lemma_mean_in_range(sum as int, n as int);
        }
        centroid.push(crate::num::div_floor(sum, n));
    }
    let mut esum: i64 = 0;
    let mut i = start;
    while i < end
        invariant
            features.wf(),
            start <= i <= end,
            end <= features.frame_count,
            esum == range_sum(features.energy@, start as int, i as int),
            -((i - start) * FEATURE_LIMIT) <= esum <= (i - start) * FEATURE_LIMIT,
        decreases end - i,
    {
        proof {
            assert((i - start) * FEATURE_LIMIT + FEATURE_LIMIT == (i + 1 - start) * FEATURE_LIMIT)
                by (nonlinear_arith);
            assert((i - start) * FEATURE_LIMIT <= MAX_FRAMES * FEATURE_LIMIT) by (nonlinear_arith)
                requires
                    0 <= i - start <= MAX_FRAMES;
        }
        esum = esum + features.energy[i];
        i = i + 1;
    }
    proof {
        assert((i - start) * FEATURE_LIMIT <= MAX_FRAMES * FEATURE_LIMIT) by (nonlinear_arith)
            requires
                0 <= i - start <= MAX_FRAMES;
        lemma_mean_in_range(esum as int, n as int);
    }
    let average_energy = crate::num::div_floor(esum, n);
    PhonemeTemplate {
        symbol: symbol.to_owned(),
        centroid,
        average_energy,
        start_frame: start,
        end_frame: end,
    }
}

/// Builds deterministic phoneme templates by evenly partitioning the
/// reference's frames: template `k` summarizes partition segment `k` and
/// carries the `k`-th phoneme symbol.
pub fn build_templates(features: &PronunciationFeatures, phonemes: &Vec<String>) -> (res: Result<
    Vec<PhonemeTemplate>,
    PronunciationError,
>)
    requires
        features.wf(),
    ensures
        res is Ok <==> (phonemes@.len() > 0 && features.frame_count >= phonemes@.len()),
        res matches Ok(ts) ==> {
            &&& ts@.len() == phonemes@.len()
            &&& forall|k: int|
                0 <= k < ts@.len() ==> template_ok(
                    *features,
                    part_start(features.frame_count as int, phonemes@.len() as int, k),
                    part_start(features.frame_count as int, phonemes@.len() as int, k) + part_span(
                        features.frame_count as int,
                        phonemes@.len() as int,
                        k,
                    ),
                    phonemes@[k]@,
                    #[trigger] ts@[k],
                ) && ts@[k].wf()
        },
{
    let checked = ensure_inputs(features.frame_count, phonemes.len());
    if let Err(e) = checked {
        return Err(e);
    }
    let segments = partition_frames(features.frame_count, phonemes.len());
    let mut templates: Vec<PhonemeTemplate> = Vec::new();
    let count = phonemes.len();
    for k in 0..count
        invariant
            features.wf(),
            count == phonemes@.len(),
            1 <= count <= features.frame_count,
            segments@.len() == count,
            forall|kk: int|
                0 <= kk < count ==> (#[trigger] segments@[kk]).0 == part_start(
                    features.frame_count as int,
                    count as int,
                    kk,
                ) && segments@[kk].1 == part_start(features.frame_count as int, count as int, kk)
                    + part_span(features.frame_count as int, count as int, kk),
            templates@.len() == k,
            forall|kk: int|
                0 <= kk < k as int ==> template_ok(
                    *features,
                    part_start(features.frame_count as int, count as int, kk),
                    part_start(features.frame_count as int, count as int, kk) + part_span(
                        features.frame_count as int,
                        count as int,
                        kk,
                    ),
                    phonemes@[kk]@,
                    #[trigger] templates@[kk],
                ) && templates@[kk].wf(),
    {
        let (start, end) = segments[k];
        proof {
            lemma_partition_in_range(features.frame_count as int, count as int, k as int + 1);
            lemma_partition_sum_exact(features.frame_count as int, count as int, k as int + 1);
            assert(end == part_start(features.frame_count as int, count as int, k as int + 1));
        }
        let template = template_for(phonemes[k].as_str(), features, start, end);
        templates.push(template);
    }
    Ok(templates)
}

/// Partition prefix sums stay within the frame count: after segment `k`,
/// at least one frame remains for each later segment.
proof fn lemma_partition_in_range(frame_count: int, phoneme_count: int, k: int)
    requires
        1 <= phoneme_count <= frame_count,
        0 <= k <= phoneme_count,
    ensures
        part_start(frame_count, phoneme_count, k) + (phoneme_count - k) <= frame_count,
{
    let base = frame_count / phoneme_count;
    let rem = frame_count % phoneme_count;
    vstd::arithmetic::div_mod::lemma_fundamental_div_mod(frame_count, phoneme_count);
    vstd::arithmetic::div_mod::lemma_mod_division_less_than_divisor(frame_count, phoneme_count);
    assert(base >= 1) by (nonlinear_arith)
        requires
            base == frame_count / phoneme_count,
            1 <= phoneme_count <= frame_count,
            frame_count == phoneme_count * base + rem,
            0 <= rem < phoneme_count;
    lemma_partition_sum_exact(frame_count, phoneme_count, k);
    let capped = if k <= rem {
        k
    } else {
        rem
    };
    assert(k * base + capped + (phoneme_count - k) <= phoneme_count * base + rem)
        by (nonlinear_arith)
        requires
            base >= 1,
            0 <= k <= phoneme_count,
            0 <= rem,
            capped == (if k <= rem {
                k
            } else {
                rem
            });
}

/// The first `k` spans sum to `k*base + min(k, rem)` exactly.
proof fn lemma_partition_sum_exact(frame_count: int, phoneme_count: int, k: int)
    requires
        1 <= phoneme_count <= frame_count,
        0 <= k <= phoneme_count,
    ensures
        part_start(frame_count, phoneme_count, k) == k * (frame_count / phoneme_count) + (if k
            <= frame_count % phoneme_count {
            k
        } else {
            frame_count % phoneme_count
        }),
    decreases k,
{
    let base = frame_count / phoneme_count;
    let rem = frame_count % phoneme_count;
    vstd::arithmetic::div_mod::lemma_fundamental_div_mod(frame_count, phoneme_count);
    vstd::arithmetic::div_mod::lemma_mod_division_less_than_divisor(frame_count, phoneme_count);
    assert(base >= 1) by (nonlinear_arith)
        requires
            base == frame_count / phoneme_count,
            1 <= phoneme_count <= frame_count,
            frame_count == phoneme_count * base + rem,
            0 <= rem < phoneme_count;
    if k > 0 {
        lemma_partition_sum_exact(frame_count, phoneme_count, k - 1);
        assert((k - 1) * base + base == k * base) by (nonlinear_arith);
    } else {
        assert(k * base == 0) by (nonlinear_arith)
            requires
                k == 0;
    }
}

} // verus!
