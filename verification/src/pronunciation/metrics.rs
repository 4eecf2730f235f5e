//! Scoring rules that turn an alignment report into human-facing metrics.
//!
//! All scores are milli-units in [0, 1000]. Timing tolerance is 120 ms,
//! articulation tolerance 1.0, energy tolerance 0.35; the overall score
//! blends timing (0.4), articulation (0.3) and prosody (0.3) with the
//! alignment confidence (weight 0.35).

use vstd::prelude::*;

use crate::pronunciation::{AlignedPhoneme, AlignmentReport, PhonemeScore, PronunciationError,
    PronunciationScores};

verus! {

/// Converts an `AlignmentReport` into aggregate scores.
#[derive(Debug)]
pub struct MetricCalculator {}

/// Clamps a milli-unit value into [0, 1000].
pub open spec fn clamp_unit(v: int) -> int {
    if v < 0 {
        0int
    } else if v > 1000 {
        1000int
    } else {
        v
    }
}

/// Executable clamping into [0, 1000].
pub fn clamp_unit_x(v: i64) -> (r: i64)
    ensures
        r == clamp_unit(v as int),
{
    if v < 0 {
        0
    } else if v > 1000 {
        1000
    } else {
        v
    }
}

/// Magnitude cap on the scalar inputs the scoring arithmetic accepts.
pub const METRIC_INPUT_LIMIT: i64 = 1_000_000_000_000;

/// Length cap on the series the scoring arithmetic accepts.
pub const METRIC_LEN_LIMIT: usize = 1_000_000_000;

/// The scalar and length bounds under which scoring cannot overflow.
pub open spec fn metrics_input_wf(rep: AlignmentReport) -> bool {
    &&& rep.phonemes@.len() <= METRIC_LEN_LIMIT
    &&& rep.similarity_band@.len() <= METRIC_LEN_LIMIT
    &&& rep.contour_band@.len() <= METRIC_LEN_LIMIT
    &&& rep.reference_energy@.len() <= METRIC_LEN_LIMIT
    &&& rep.learner_energy@.len() <= METRIC_LEN_LIMIT
    &&& forall|i: int|
        0 <= i < rep.phonemes@.len() ==> -METRIC_INPUT_LIMIT <= (
        #[trigger] rep.phonemes@[i]).timing_delta_mms <= METRIC_INPUT_LIMIT
            && -METRIC_INPUT_LIMIT <= rep.phonemes@[i].articulation_variance
            <= METRIC_INPUT_LIMIT && -METRIC_INPUT_LIMIT <= rep.phonemes@[i].contour_similarity
            <= METRIC_INPUT_LIMIT
    &&& forall|i: int|
        0 <= i < rep.reference_energy@.len() ==> -METRIC_INPUT_LIMIT
            <= #[trigger] rep.reference_energy@[i] <= METRIC_INPUT_LIMIT
    &&& forall|i: int|
        0 <= i < rep.learner_energy@.len() ==> -METRIC_INPUT_LIMIT
            <= #[trigger] rep.learner_energy@[i] <= METRIC_INPUT_LIMIT
    &&& forall|i: int|
        0 <= i < rep.contour_band@.len() ==> -METRIC_INPUT_LIMIT
            <= #[trigger] rep.contour_band@[i] <= METRIC_INPUT_LIMIT
    &&& forall|i: int|
        0 <= i < rep.similarity_band@.len() ==> -METRIC_INPUT_LIMIT
            <= #[trigger] rep.similarity_band@[i] <= METRIC_INPUT_LIMIT
}

/// Absolute value.
pub open spec fn abs_i(v: int) -> int {
    if v < 0 {
        -v
    } else {
        v
    }
}

/// Timing quality of one timing delta (milli-ms): full marks at zero
/// delta, none at 120 ms or more.
pub open spec fn band_from_delta_spec(delta_mms: int) -> int {
    let ratio = abs_i(delta_mms) / 120;
    1000 - (if ratio <= 1000 {
        ratio
    } else {
        1000int
    })
}

/// Sum of clamped values of a series prefix.
pub open spec fn clamped_sum(v: Seq<i64>, n: int) -> int
    decreases n,
{
    if n <= 0 {
        0int
    } else {
        clamped_sum(v, n - 1) + clamp_unit(v[n - 1] as int)
    }
}

/// Mean of the clamped values, clamped; 1000 for an empty series.
pub open spec fn average_band_spec(v: Seq<i64>) -> int {
    if v.len() == 0 {
        1000int
    } else {
        clamp_unit(clamped_sum(v, v.len() as int) / v.len() as int)
    }
}

/// Timing quality terms of the segments.
pub open spec fn timing_terms(ph: Seq<AlignedPhoneme>) -> Seq<i64> {
    ph.map_values(|p: AlignedPhoneme| band_from_delta_spec(p.timing_delta_mms as int) as i64)
}

/// Articulation quality terms of the segments: one minus the variance
/// capped at the 1.0 tolerance.
pub open spec fn artic_terms(ph: Seq<AlignedPhoneme>) -> Seq<i64> {
    ph.map_values(
        |p: AlignedPhoneme|
            (1000 - (if p.articulation_variance as int <= 1000 {
                p.articulation_variance as int
            } else {
                1000int
            })) as i64,
    )
}

/// Energy agreement terms over the shared prefix of the two energy series:
/// one minus the absolute difference scaled by the 0.35 tolerance.
pub open spec fn energy_term(a: i64, b: i64) -> int {
    let ratio = (abs_i(a - b) * 1000) / 350;
    1000 - (if ratio <= 1000 {
        ratio
    } else {
        1000int
    })
}

/// Sum of energy agreement terms over the first `n` pairs.
pub open spec fn energy_sum(a: Seq<i64>, b: Seq<i64>, n: int) -> int
    decreases n,
{
    if n <= 0 {
        0int
    } else {
        energy_sum(a, b, n - 1) + energy_term(a[n - 1], b[n - 1])
    }
}

/// The energy alignment score, when both series are nonempty.
pub open spec fn energy_score_spec(a: Seq<i64>, b: Seq<i64>) -> int {
    let n = if a.len() <= b.len() {
        a.len() as int
    } else {
        b.len() as int
    };
    clamp_unit(energy_sum(a, b, n) / n)
}

/// The prosody score: the contour band when present (blended with the
/// energy score when that exists too), else the energy score, else the
/// similarity band.
pub open spec fn prosody_spec(rep: AlignmentReport) -> int {
    let has_energy = rep.reference_energy@.len() > 0 && rep.learner_energy@.len() > 0;
    if rep.contour_band@.len() > 0 {
        let contour = average_band_spec(rep.contour_band@);
        if has_energy {
            clamp_unit(
                (contour * 700 + energy_score_spec(rep.reference_energy@, rep.learner_energy@)
                    * 300) / 1000,
            )
        } else {
            contour
        }
    } else if has_energy {
        energy_score_spec(rep.reference_energy@, rep.learner_energy@)
    } else {
        average_band_spec(rep.similarity_band@)
    }
}

/// The blended overall score from the three component scores and the
/// confidence.
pub open spec fn overall_spec(confidence: int, timing: int, artic: int, prosody: int) -> int {
    let composite = (400 * timing + 300 * artic + 300 * prosody) / 1000;
    clamp_unit((composite * 650 + clamp_unit(confidence) * 350) / 1000)
}

/// What one per-segment score row must hold.
pub open spec fn phoneme_score_ok(p: AlignedPhoneme, s: PhonemeScore) -> bool {
    &&& s.symbol@ == p.symbol@
    &&& s.timing == band_from_delta_spec(p.timing_delta_mms as int)
    &&& s.articulation == clamp_unit(1000 - p.articulation_variance as int)
    &&& s.intonation == clamp_unit(p.contour_similarity as int)
}

/// What `score` promises of its result.
pub open spec fn scores_ok(rep: AlignmentReport, s: PronunciationScores) -> bool {
    if rep.phonemes@.len() == 0 {
        &&& s.overall == clamp_unit(rep.confidence as int)
        &&& s.timing == 1000
        &&& s.articulation == 1000
        &&& s.intonation == 1000
        &&& s.per_phoneme@.len() == 0
    } else {
        &&& s.timing == average_band_spec(timing_terms(rep.phonemes@))
        &&& s.articulation == average_band_spec(artic_terms(rep.phonemes@))
        &&& s.intonation == prosody_spec(rep)
        &&& s.overall == overall_spec(rep.confidence as int, s.timing as int,
            s.articulation as int, s.intonation as int)
        &&& s.per_phoneme@.len() == rep.phonemes@.len()
        &&& forall|i: int|
            0 <= i < s.per_phoneme@.len() ==> phoneme_score_ok(rep.phonemes@[i],
                #[trigger] s.per_phoneme@[i])
    }
}

fn abs_x(v: i64) -> (r: i64)
    requires
        -METRIC_INPUT_LIMIT <= v <= METRIC_INPUT_LIMIT,
    ensures
        r == abs_i(v as int),
{
    if v < 0 {
        -v
    } else {
        v
    }
}

fn band_from_delta(delta_mms: i64) -> (r: i64)
    requires
        -METRIC_INPUT_LIMIT <= delta_mms <= METRIC_INPUT_LIMIT,
    ensures
        r == band_from_delta_spec(delta_mms as int),
        0 <= r <= 1000,
{
    let ratio = ((abs_x(delta_mms) as u64) / 120) as i64;
    let capped = if ratio <= 1000 {
        ratio
    } else {
        1000
    };
    1000 - capped
}

/// Mean of the clamped values of a series, clamped; 1000 when empty.
fn average_band(values: &Vec<i64>) -> (r: i64)
    requires
        values@.len() <= METRIC_LEN_LIMIT,
    ensures
        r == average_band_spec(values@),
        0 <= r <= 1000,
{
    let n = values.len();
    if n == 0 {
        return 1000;
    }
    let mut total: i64 = 0;
    for i in 0..n
        invariant
            n == values@.len(),
            n <= METRIC_LEN_LIMIT,
            total == clamped_sum(values@, i as int),
            0 <= total <= i * 1000,
    {
        total = total + clamp_unit_x(values[i]);
    }
    let mean = ((total as u64) / (n as u64)) as i64;
    clamp_unit_x(mean)
}

/// Neutral scores carrying only the alignment confidence, clamped; used
/// when the report holds no segments.
pub fn empty_scores(confidence: i64) -> (r: PronunciationScores)
    ensures
        r.overall == clamp_unit(confidence as int),
        r.timing == 1000 && r.articulation == 1000 && r.intonation == 1000,
        r.per_phoneme@.len() == 0,
{
    PronunciationScores {
        overall: clamp_unit_x(confidence),
        timing: 1000,
        articulation: 1000,
        intonation: 1000,
        per_phoneme: Vec::new(),
    }
}

fn timing_score(phonemes: &Vec<AlignedPhoneme>) -> (r: i64)
    requires
        phonemes@.len() <= METRIC_LEN_LIMIT,
        forall|i: int|
            0 <= i < phonemes@.len() ==> -METRIC_INPUT_LIMIT <= (
            #[trigger] phonemes@[i]).timing_delta_mms <= METRIC_INPUT_LIMIT,
    ensures
        r == average_band_spec(timing_terms(phonemes@)),
        0 <= r <= 1000,
{
    let n = phonemes.len();
    let mut terms: Vec<i64> = Vec::new();
    for i in 0..n
        invariant
            n == phonemes@.len(),
            forall|k: int|
                0 <= k < phonemes@.len() ==> -METRIC_INPUT_LIMIT <= (
                #[trigger] phonemes@[k]).timing_delta_mms <= METRIC_INPUT_LIMIT,
            terms@ == timing_terms(phonemes@.subrange(0, i as int)),
    {
        terms.push(band_from_delta(phonemes[i].timing_delta_mms));
        proof {
            assert(phonemes@.subrange(0, i + 1).drop_last() =~= phonemes@.subrange(0, i as int));
            assert(terms@ =~= timing_terms(phonemes@.subrange(0, i + 1)));
        }
    }
    proof {
        assert(phonemes@.subrange(0, phonemes@.len() as int) =~= phonemes@);
    }
    average_band(&terms)
}

fn articulation_score(phonemes: &Vec<AlignedPhoneme>) -> (r: i64)
    requires
        phonemes@.len() <= METRIC_LEN_LIMIT,
        forall|i: int|
            0 <= i < phonemes@.len() ==> -METRIC_INPUT_LIMIT <= (
            #[trigger] phonemes@[i]).articulation_variance <= METRIC_INPUT_LIMIT,
    ensures
        r == average_band_spec(artic_terms(phonemes@)),
        0 <= r <= 1000,
{
    let n = phonemes.len();
    let mut terms: Vec<i64> = Vec::new();
    for i in 0..n
        invariant
            n == phonemes@.len(),
            forall|k: int|
                0 <= k < phonemes@.len() ==> -METRIC_INPUT_LIMIT <= (
                #[trigger] phonemes@[k]).articulation_variance <= METRIC_INPUT_LIMIT,
            terms@ == artic_terms(phonemes@.subrange(0, i as int)),
    {
        let av = phonemes[i].articulation_variance;
        let capped = if av <= 1000 {
            av
        } else {
            1000
        };
        terms.push(1000 - capped);
        proof {
            assert(phonemes@.subrange(0, i + 1).drop_last() =~= phonemes@.subrange(0, i as int));
            assert(terms@ =~= artic_terms(phonemes@.subrange(0, i + 1)));
        }
    }
    proof {
        assert(phonemes@.subrange(0, phonemes@.len() as int) =~= phonemes@);
    }
    average_band(&terms)
}

fn energy_alignment_score(a: &Vec<i64>, b: &Vec<i64>) -> (r: Option<i64>)
    requires
        a@.len() <= METRIC_LEN_LIMIT,
        b@.len() <= METRIC_LEN_LIMIT,
        forall|i: int|
            0 <= i < a@.len() ==> -METRIC_INPUT_LIMIT <= #[trigger] a@[i] <= METRIC_INPUT_LIMIT,
        forall|i: int|
            0 <= i < b@.len() ==> -METRIC_INPUT_LIMIT <= #[trigger] b@[i] <= METRIC_INPUT_LIMIT,
    ensures
        r is Some <==> (a@.len() > 0 && b@.len() > 0),
        r matches Some(v) ==> v == energy_score_spec(a@, b@) && 0 <= v <= 1000,
{
    if a.len() == 0 || b.len() == 0 {
        return None;
    }
    let n = if a.len() <= b.len() {
        a.len()
    } else {
        b.len()
    };
    let mut total: i64 = 0;
    for i in 0..n
        invariant
            n <= a@.len(),
            n <= b@.len(),
            n <= METRIC_LEN_LIMIT,
            forall|k: int|
                0 <= k < a@.len() ==> -METRIC_INPUT_LIMIT <= #[trigger] a@[k]
                    <= METRIC_INPUT_LIMIT,
            forall|k: int|
                0 <= k < b@.len() ==> -METRIC_INPUT_LIMIT <= #[trigger] b@[k]
                    <= METRIC_INPUT_LIMIT,
            total == energy_sum(a@, b@, i as int),
            -(i * 1000) <= total <= i * 1000,
    {
        let diff = a[i] - b[i];
        let ad = if diff < 0 {
            -diff
        } else {
            diff
        };
        let scaled_u: u64 = ((ad as u64) * 1000) / 350;
        let ratio: i64 = if scaled_u >= 1000 {
            1000
        } else {
            scaled_u as i64
        };
        proof {
            assert((ad as int) * 1000 <= 2_000_000_000_000_000) by (nonlinear_arith)
                requires
                    0 <= (ad as int) <= 2 * METRIC_INPUT_LIMIT;
            if (abs_i(a@[i as int] - b@[i as int]) * 1000) / 350 <= 1000 {
                assert(ratio == (abs_i(a@[i as int] - b@[i as int]) * 1000) / 350);
            }
        }
        total = total + (1000 - ratio);
    }
    let mean = crate::num::div_floor(total, n as i64);
    Some(clamp_unit_x(mean))
}

fn prosody_score(report: &AlignmentReport) -> (r: i64)
    requires
        metrics_input_wf(*report),
    ensures
        r == prosody_spec(*report),
        0 <= r <= 1000,
{
    let energy = energy_alignment_score(&report.reference_energy, &report.learner_energy);
    if report.contour_band.len() > 0 {
        let contour = average_band(&report.contour_band);
        match energy {
            Some(e) => clamp_unit_x((((contour * 700 + e * 300) as u64) / 1000) as i64),
            None => contour,
        }
    } else {
        match energy {
            Some(e) => e,
            None => average_band(&report.similarity_band),
        }
    }
}

fn overall_score(confidence: i64, timing: i64, artic: i64, prosody: i64) -> (r: i64)
    requires
        0 <= timing <= 1000,
        0 <= artic <= 1000,
        0 <= prosody <= 1000,
    ensures
        r == overall_spec(confidence as int, timing as int, artic as int, prosody as int),
        0 <= r <= 1000,
{
    let composite = (((400 * timing + 300 * artic + 300 * prosody) as u64) / 1000) as i64;
    let conf = clamp_unit_x(confidence);
    clamp_unit_x((((composite * 650 + conf * 350) as u64) / 1000) as i64)
}

impl MetricCalculator {
    pub fn new() -> (r: MetricCalculator) {
        MetricCalculator {  }
    }

    /// Scores an alignment report. Always succeeds: a report without
    /// segments yields the neutral scores around its confidence.
    pub fn score(&self, report: &AlignmentReport) -> (res: Result<
        PronunciationScores,
        PronunciationError,
    >)
        requires
            metrics_input_wf(*report),
        ensures
            res is Ok,
            res matches Ok(s) ==> scores_ok(*report, s),
    {
        if report.phonemes.len() == 0 {
            return Ok(empty_scores(report.confidence));
        }
        let timing = timing_score(&report.phonemes);
        let articulation = articulation_score(&report.phonemes);
        let prosody = prosody_score(report);
        let overall = overall_score(report.confidence, timing, articulation, prosody);
        let n = report.phonemes.len();
        let mut per_phoneme: Vec<PhonemeScore> = Vec::new();
        for i in 0..n
            invariant
                n == report.phonemes@.len(),
                metrics_input_wf(*report),
                per_phoneme@.len() == i,
                forall|k: int|
                    0 <= k < i as int ==> phoneme_score_ok(report.phonemes@[k],
                        #[trigger] per_phoneme@[k]),
        {
            let p = &report.phonemes[i];
            per_phoneme.push(
                PhonemeScore {
                    symbol: clone_string(&p.symbol),
                    timing: band_from_delta(p.timing_delta_mms),
                    articulation: clamp_unit_x(1000 - cap_metric(p.articulation_variance)),
                    intonation: clamp_unit_x(p.contour_similarity),
                },
            );
        }
        Ok(PronunciationScores { overall, timing, articulation, intonation: prosody, per_phoneme })
    }
}

impl Default for MetricCalculator {
    fn default() -> (r: MetricCalculator) {
        MetricCalculator {  }
    }
}

/// Caps a scalar so that `1000 - v` stays in range.
fn cap_metric(v: i64) -> (r: i64)
    requires
        -METRIC_INPUT_LIMIT <= v <= METRIC_INPUT_LIMIT,
    ensures
        clamp_unit(1000 - r as int) == clamp_unit(1000 - v as int),
        -METRIC_INPUT_LIMIT <= r <= METRIC_INPUT_LIMIT,
{
    if v > 1000 {
        1001
    } else {
        v
    }
}

/// Copies a string value for value.
fn clone_string(s: &String) -> (r: String)
    ensures
        r@ == s@,
{
    s.as_str().to_owned()
}

} // verus!
