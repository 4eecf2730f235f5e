//! The per-session engine: a state machine fed by a capture source and a
//! feature extractor, re-running alignment over a rolling sample buffer.

use vstd::prelude::*;

use crate::audio::resample::{linear_resample, resample_len, resampled_at, samples_bounded,
    SAMPLE_LIMIT};
use crate::pronunciation::alignment::{some_report_ok, AudioAligner, DEFAULT_SEGMENT_FRAMES,
    DEFAULT_WARP_BAND};
use crate::pronunciation::metrics::scores_ok;
use crate::pronunciation::session::latency_message;
use crate::pronunciation::metrics::{metrics_input_wf, MetricCalculator, METRIC_INPUT_LIMIT,
    METRIC_LEN_LIMIT};
use crate::pronunciation::session::{append_limited, min_required_samples, SessionSnapshot,
    CAPTURE_POLL_MS, MIN_SIGNAL_FRACTION};
use crate::pronunciation::{matrix_wf, series_wf, AlignmentReport, AlignmentWeights,
    PronunciationError, PronunciationFeatures, RecordedClip, FEATURE_LIMIT, MAX_FRAMES,
    MAX_WIDTH, TARGET_SAMPLE_RATE};

verus! {

/// One chunk may hold at most this many raw samples.
pub const MAX_CHUNK_SAMPLES: usize = 10_000_000;

/// Capture rates outside this window are rejected as nonsensical.
pub const MIN_CAPTURE_RATE: u32 = 4_000;

pub const MAX_CAPTURE_RATE: u32 = 384_000;

/// A source of captured audio chunks: a live device in the embedding
/// program, a deterministic fake in tests.
pub trait CaptureSource {
    /// Opens the source; on success returns its native sample rate.
    fn start(&mut self) -> Result<u32, PronunciationError>;

    /// Waits up to `timeout_ms` for one chunk of samples in milli-units.
    fn recv_chunk(&mut self, timeout_ms: u64) -> Option<Vec<i32>>;

    /// Releases the source.
    fn stop(&mut self);
}

/// A feature extractor: turns a clip into per-frame descriptors. The
/// spectral math lives outside this crate; the engine checks the shape of
/// whatever comes back before using it.
pub trait FeatureSource {
    fn extract(&self, clip: &RecordedClip) -> Result<PronunciationFeatures, PronunciationError>;
}

/// Relies on `std::time::SystemTime::now`: a wall-clock reading in
/// milliseconds, used only to measure elapsed processing time.
#[verifier::external_body]
fn now_ms() -> u64 {
    std::time::SystemTime::now().duration_since(std::time::UNIX_EPOCH).map(
        |d| d.as_millis() as u64,
    ).unwrap_or(0)
}

/// Runtime check of `series_wf`.
fn check_series(v: &Vec<i64>) -> (r: bool)
    ensures
        r == series_wf(v@),
{
    let n = v.len();
    for i in 0..n
        invariant
            n == v@.len(),
            forall|k: int| 0 <= k < i ==> -FEATURE_LIMIT <= #[trigger] v@[k] <= FEATURE_LIMIT,
    {
        if v[i] < -FEATURE_LIMIT || v[i] > FEATURE_LIMIT {
            return false;
        }
    }
    true
}

/// Runtime check of `matrix_wf` against a given width.
fn check_matrix(m: &Vec<Vec<i64>>, w: usize) -> (r: bool)
    ensures
        r == matrix_wf(m@, w as int),
{
    if w > MAX_WIDTH {
        return false;
    }
    let n = m.len();
    for i in 0..n
        invariant
            n == m@.len(),
            w <= MAX_WIDTH,
            forall|k: int| 0 <= k < i ==> (#[trigger] m@[k])@.len() == w,
            forall|k: int| 0 <= k < i ==> series_wf((#[trigger] m@[k])@),
    {
        if m[i].len() != w {
            return false;
        }
        if !check_series(&m[i]) {
            return false;
        }
    }
    true
}

/// Runtime check of the feature data-model invariant.
pub fn check_features(f: &PronunciationFeatures) -> (r: bool)
    ensures
        r == f.wf(),
{
    if f.frame_count > MAX_FRAMES || f.mel_bands > MAX_WIDTH {
        return false;
    }
    if f.mel_spectrogram.len() != f.frame_count || f.spectral_flux.len() != f.frame_count
        || f.energy.len() != f.frame_count || f.mfcc.len() != f.frame_count || f.deltas.len()
        != f.frame_count || f.delta_deltas.len() != f.frame_count || f.pitch_contour.len()
        != f.frame_count {
        return false;
    }
    let width = if f.mfcc.len() == 0 {
        0
    } else {
        f.mfcc[0].len()
    };
    if !check_matrix(&f.mel_spectrogram, f.mel_bands) {
        return false;
    }
    if !check_matrix(&f.mfcc, width) {
        return false;
    }
    if !check_matrix(&f.deltas, width) {
        return false;
    }
    if !check_matrix(&f.delta_deltas, width) {
        return false;
    }
    if !check_series(&f.spectral_flux) {
        return false;
    }
    if !check_series(&f.energy) {
        return false;
    }
    if !check_series(&f.pitch_contour) {
        return false;
    }
    true
}

/// Runtime check of the bounds the scoring arithmetic needs. A report the
/// aligner produced always passes; the check keeps the engine total over
/// every extractor.
fn check_metrics_input(rep: &AlignmentReport) -> (r: bool)
    ensures
        r ==> metrics_input_wf(*rep),
{
    if rep.phonemes.len() > METRIC_LEN_LIMIT || rep.similarity_band.len() > METRIC_LEN_LIMIT
        || rep.contour_band.len() > METRIC_LEN_LIMIT || rep.reference_energy.len()
        > METRIC_LEN_LIMIT || rep.learner_energy.len() > METRIC_LEN_LIMIT {
        return false;
    }
    let n = rep.phonemes.len();
    for i in 0..n
        invariant
            n == rep.phonemes@.len(),
            forall|k: int|
                0 <= k < i ==> -METRIC_INPUT_LIMIT <= (
                #[trigger] rep.phonemes@[k]).timing_delta_mms <= METRIC_INPUT_LIMIT
                    && -METRIC_INPUT_LIMIT <= rep.phonemes@[k].articulation_variance
                    <= METRIC_INPUT_LIMIT && -METRIC_INPUT_LIMIT
                    <= rep.phonemes@[k].contour_similarity <= METRIC_INPUT_LIMIT,
    {
        let p = &rep.phonemes[i];
        if p.timing_delta_mms < -METRIC_INPUT_LIMIT || p.timing_delta_mms > METRIC_INPUT_LIMIT
            || p.articulation_variance < -METRIC_INPUT_LIMIT || p.articulation_variance
            > METRIC_INPUT_LIMIT || p.contour_similarity < -METRIC_INPUT_LIMIT
            || p.contour_similarity > METRIC_INPUT_LIMIT {
            return false;
        }
    }
    if !check_bounded(&rep.reference_energy) {
        return false;
    }
    if !check_bounded(&rep.learner_energy) {
        return false;
    }
    if !check_bounded(&rep.contour_band) {
        return false;
    }
    if !check_bounded(&rep.similarity_band) {
        return false;
    }
    true
}

fn check_bounded(v: &Vec<i64>) -> (r: bool)
    ensures
        r == forall|k: int|
            0 <= k < v@.len() ==> -METRIC_INPUT_LIMIT <= #[trigger] v@[k] <= METRIC_INPUT_LIMIT,
{
    let n = v.len();
    for i in 0..n
        invariant
            n == v@.len(),
            forall|k: int|
                0 <= k < i ==> -METRIC_INPUT_LIMIT <= #[trigger] v@[k] <= METRIC_INPUT_LIMIT,
    {
        if v[i] < -METRIC_INPUT_LIMIT || v[i] > METRIC_INPUT_LIMIT {
            return false;
        }
    }
    true
}

/// Clamping of one raw capture sample into the admissible magnitude.
pub open spec fn clamp_sample_spec(v: i32) -> i32 {
    if v < -SAMPLE_LIMIT {
        (-SAMPLE_LIMIT) as i32
    } else if v > SAMPLE_LIMIT {
        SAMPLE_LIMIT as i32
    } else {
        v
    }
}

/// A whole chunk after per-sample clamping.
pub open spec fn clamped_chunk_spec(c: Seq<i32>) -> Seq<i32> {
    c.map_values(|v: i32| clamp_sample_spec(v))
}

/// The sample sequence linear resampling yields: the input itself when it
/// is empty or the rates agree, else the interpolation `resampled_at`
/// describes at every output index.
pub open spec fn resampled_chunk_spec(s: Seq<i32>, src: int, tgt: int) -> Seq<i32> {
    if s.len() == 0 || src == tgt {
        s
    } else {
        Seq::new(
            resample_len(s.len() as int, src, tgt) as nat,
            |i: int| resampled_at(s, src, tgt, i) as i32,
        )
    }
}

/// The rolling buffer after appending `add` under the cap `max`: the
/// trailing window of the concatenation.
pub open spec fn rolled_buffer_spec(buf: Seq<i32>, add: Seq<i32>, max: int) -> Seq<i32> {
    let joined = buf + add;
    if joined.len() > max {
        joined.skip(joined.len() - max)
    } else {
        joined
    }
}

/// Clamps raw capture samples to the admissible magnitude.
fn clamp_samples(chunk: Vec<i32>) -> (r: Vec<i32>)
    ensures
        r@ == clamped_chunk_spec(chunk@),
        samples_bounded(r@),
{
    let mut out: Vec<i32> = Vec::new();
    let n = chunk.len();
    for i in 0..n
        invariant
            n == chunk@.len(),
            out@.len() == i,
            forall|k: int| 0 <= k < i ==> #[trigger] out@[k] == clamp_sample_spec(chunk@[k]),
    {
        let v = chunk[i];
        let c = if v < -SAMPLE_LIMIT {
            -SAMPLE_LIMIT
        } else if v > SAMPLE_LIMIT {
            SAMPLE_LIMIT
        } else {
            v
        };
        out.push(c);
    }
    proof {
        assert(out@ =~= clamped_chunk_spec(chunk@));
        assert forall|k: int| 0 <= k < out@.len() implies -SAMPLE_LIMIT <= #[trigger] out@[k]
            <= SAMPLE_LIMIT by {
            assert(out@[k] == clamp_sample_spec(chunk@[k]));
        }
    }
    out
}

/// The per-session actor: owns the capture source, the extractor, the
/// retained reference features and the rolling learner buffer.
pub struct SessionEngine<C: CaptureSource, F: FeatureSource> {
    capture: C,
    extractor: F,
    aligner: AudioAligner,
    metrics: MetricCalculator,
    reference_features: PronunciationFeatures,
    learner_buffer: Vec<i32>,
    reference_samples: usize,
    latency_budget_ms: u32,
    capture_sample_rate: Option<u32>,
    chunk_count: u64,
}

impl<C: CaptureSource, F: FeatureSource> SessionEngine<C, F> {
    /// The engine's internal invariant: a well-formed aligner and
    /// reference, a bounded reference length, and a rolling buffer inside
    /// its cap.
    pub closed spec fn wf(&self) -> bool {
        &&& self.aligner.wf()
        &&& self.reference_features.wf()
        &&& self.reference_samples <= 1_000_000_000
        &&& self.learner_buffer@.len() <= self.reference_samples + TARGET_SAMPLE_RATE as int / 2
        &&& samples_bounded(self.learner_buffer@)
    }

    /// Whether a capture stream is currently open (the Recording state).
    pub closed spec fn spec_recording(&self) -> bool {
        self.capture_sample_rate is Some
    }

    /// The rolling learner buffer, for contracts.
    pub closed spec fn spec_buffer(&self) -> Seq<i32> {
        self.learner_buffer@
    }

    /// The configured latency budget.
    pub closed spec fn spec_latency_budget_ms(&self) -> u32 {
        self.latency_budget_ms
    }

    /// The capture sample rate while Recording (zero while Idle).
    pub closed spec fn spec_capture_rate(&self) -> int {
        match self.capture_sample_rate {
            Some(rate) => rate as int,
            None => 0int,
        }
    }

    /// The configured aligner (band, segment window, weights).
    pub closed spec fn spec_aligner(&self) -> AudioAligner {
        self.aligner
    }

    /// A chunk the engine fully ingests: the stream is open, its rate is
    /// sane, and the chunk is not absurdly large.
    pub open spec fn spec_chunk_admissible(&self, chunk: Seq<i32>) -> bool {
        &&& self.spec_recording()
        &&& MIN_CAPTURE_RATE <= self.spec_capture_rate() <= MAX_CAPTURE_RATE
        &&& chunk.len() <= MAX_CHUNK_SAMPLES
    }

    /// What a published snapshot update promises: the alignment is a
    /// faithful report of the retained reference against some well-formed
    /// extracted features under the engine's configuration, the scores
    /// follow the scoring rules from that report, the session reads as
    /// recording, and the latency field carries the soft-deadline warning
    /// exactly when the measurement exceeds the budget.
    pub open spec fn spec_update_ok(&self, snap: SessionSnapshot) -> bool {
        &&& exists|f: PronunciationFeatures|
            f.wf() && some_report_ok(
                self.spec_reference(),
                f,
                self.spec_aligner().weights,
                self.spec_aligner().warp_band as int,
                self.spec_aligner().segment_frames as int,
                snap.alignment,
            )
        &&& scores_ok(snap.alignment, snap.scores)
        &&& snap.recording
        &&& snap.reference_playing
        &&& (snap.latency_ms > self.spec_latency_budget_ms() ==> (snap.error matches Some(m)
            && m@ == latency_message(
                snap.latency_ms as int,
                self.spec_latency_budget_ms() as int,
            )))
        &&& (snap.latency_ms <= self.spec_latency_budget_ms() ==> snap.error is None)
    }

    /// The rolling buffer never exceeds the reference length plus half a
    /// second of samples (spec's backpressure cap).
    pub proof fn lemma_buffer_capped(&self)
        requires
            self.wf(),
        ensures
            self.spec_buffer().len() <= self.spec_reference_samples() + TARGET_SAMPLE_RATE as int
                / 2,
    {
    }

    /// Builds an engine around a reference clip: extracts the reference's
    /// features once (checking their shape) and retains them with the
    /// clip's raw sample count.
    pub fn new(reference: RecordedClip, alignment: AlignmentWeights, latency_budget_ms: u32,
        capture: C, extractor: F) -> (res: Result<SessionEngine<C, F>, PronunciationError>)
        requires
            alignment.wf(),
        ensures
            res matches Ok(engine) ==> engine.wf() && !engine.spec_recording()
                && engine.spec_buffer().len() == 0 && engine.spec_latency_budget_ms()
                == latency_budget_ms,
            res matches Ok(engine) ==> engine.spec_reference_samples()
                == reference.samples@.len() && engine.spec_aligner().weights == alignment
                && engine.spec_aligner().warp_band == DEFAULT_WARP_BAND
                && engine.spec_aligner().segment_frames == DEFAULT_SEGMENT_FRAMES,
            reference.samples@.len() > 1_000_000_000 ==> (res matches Err(e)
                && e.spec_message() == "reference clip is too long for a live session"@),
    {
        if reference.samples.len() > 1_000_000_000 {
            return Err(PronunciationError::new("reference clip is too long for a live session"));
        }
        let reference_samples = reference.samples.len();
        let features = match extractor.extract(&reference) {
            Ok(f) => f,
            Err(e) => {
                return Err(e);
            },
        };
        if !check_features(&features) {
            return Err(
                PronunciationError::new("feature extractor returned inconsistent features"),
            );
        }
        Ok(
            SessionEngine {
                capture,
                extractor,
                aligner: AudioAligner::new(alignment),
                metrics: MetricCalculator::new(),
                reference_features: features,
                learner_buffer: Vec::new(),
                reference_samples,
                latency_budget_ms,
                capture_sample_rate: None,
                chunk_count: 0,
            },
        )
    }

    /// Idle to Recording: starts the capture source, clears the rolling
    /// buffer and the chunk counter, and marks the snapshot as recording.
    pub fn start(&mut self, snapshot: &mut SessionSnapshot) -> (res: Result<
        (),
        PronunciationError,
    >)
        requires
            old(self).wf(),
        ensures
            final(self).wf(),
            final(self).spec_latency_budget_ms() == old(self).spec_latency_budget_ms(),
            final(self).spec_reference() == old(self).spec_reference(),
            final(self).spec_reference_samples() == old(self).spec_reference_samples(),
            final(self).spec_aligner() == old(self).spec_aligner(),
            res is Ok ==> final(self).spec_recording() && final(self).spec_buffer().len() == 0
                && *final(snapshot) == (SessionSnapshot {
                recording: true,
                reference_playing: true,
                ..*old(snapshot)
            }),
            res is Err ==> *final(snapshot) == *old(snapshot) && final(self).spec_recording()
                == old(self).spec_recording() && final(self).spec_buffer()
                == old(self).spec_buffer(),
    {
        let rate = match self.capture.start() {
            Ok(rate) => rate,
            Err(e) => {
                return Err(e);
            },
        };
        self.capture_sample_rate = Some(rate);
        self.learner_buffer = Vec::new();
        self.chunk_count = 0;
        let previous = take_snapshot(snapshot);
        *snapshot = previous.with_recording(true, true);
        Ok(())
    }

    /// Recording to Idle: stops capture and clears the buffer. Before
    /// `start` this is a harmless no-op on the engine state; either way
    /// the snapshot comes back marked not recording.
    pub fn stop(&mut self, snapshot: &mut SessionSnapshot)
        requires
            old(self).wf(),
        ensures
            final(self).wf(),
            !final(self).spec_recording(),
            final(self).spec_buffer().len() == 0,
            final(self).spec_latency_budget_ms() == old(self).spec_latency_budget_ms(),
            final(self).spec_reference() == old(self).spec_reference(),
            final(self).spec_reference_samples() == old(self).spec_reference_samples(),
            final(self).spec_aligner() == old(self).spec_aligner(),
            *final(snapshot) == (SessionSnapshot {
                recording: false,
                reference_playing: false,
                ..*old(snapshot)
            }),
    {
        self.capture.stop();
        self.capture_sample_rate = None;
        self.learner_buffer = Vec::new();
        let previous = take_snapshot(snapshot);
        *snapshot = previous.with_recording(false, false);
    }

    pub fn latency_budget_ms(&self) -> (r: u32)
        ensures
            r == self.spec_latency_budget_ms(),
    {
        self.latency_budget_ms
    }

    /// The retained reference features, for contracts.
    pub closed spec fn spec_reference(&self) -> PronunciationFeatures {
        self.reference_features
    }

    /// The retained raw sample count of the reference clip.
    pub closed spec fn spec_reference_samples(&self) -> int {
        self.reference_samples as int
    }

    /// The report behind the initial snapshot, before any recording: the
    /// reference's duration, energy and pitch, with the energy normalized
    /// into the similarity band and the pitch mirrored into the contour
    /// band.
    pub fn reference_alignment(&self) -> (r: AlignmentReport)
        requires
            self.wf(),
        ensures
            r.phonemes@.len() == 0,
            r.total_duration_ms == self.spec_reference_samples() * 1000 / (
            TARGET_SAMPLE_RATE as int),
            r.reference_energy@ == self.spec_reference().energy@,
            r.reference_pitch@ == self.spec_reference().pitch_contour@,
            r.contour_band@ == self.spec_reference().pitch_contour@,
            r.similarity_band@ == normalize_band_spec(self.spec_reference().energy@),
    {
        let mut alignment = AlignmentReport::empty();
        let samples: u64 = self.reference_samples as u64;
        alignment.total_duration_ms = samples * 1000 / (TARGET_SAMPLE_RATE as u64);
        alignment.reference_energy = crate::num::copy_vec(&self.reference_features.energy);
        alignment.reference_pitch = crate::num::copy_vec(&self.reference_features.pitch_contour);
        alignment.similarity_band = normalize_band(&self.reference_features.energy);
        alignment.contour_band = crate::num::copy_vec(&self.reference_features.pitch_contour);
        alignment
    }

    /// One poll step: waits briefly for a chunk and, if enough signal has
    /// accumulated, re-runs alignment and scoring and refreshes the
    /// snapshot. Returns whether the snapshot changed. The rolling buffer
    /// stays within its cap whatever arrives.
    pub fn poll(&mut self, snapshot: &mut SessionSnapshot) -> (res: Result<
        bool,
        PronunciationError,
    >)
        requires
            old(self).wf(),
        ensures
            final(self).wf(),
            final(self).spec_latency_budget_ms() == old(self).spec_latency_budget_ms(),
            final(self).spec_recording() == old(self).spec_recording(),
            final(self).spec_capture_rate() == old(self).spec_capture_rate(),
            final(self).spec_reference() == old(self).spec_reference(),
            final(self).spec_reference_samples() == old(self).spec_reference_samples(),
            final(self).spec_aligner() == old(self).spec_aligner(),
            res matches Ok(b) && !b ==> *final(snapshot) == *old(snapshot),
            res matches Ok(b) && b ==> old(self).spec_update_ok(*final(snapshot)),
            !old(self).spec_recording() ==> !(res matches Ok(b) && b),
    {
        let chunk = match self.capture.recv_chunk(CAPTURE_POLL_MS) {
            Some(chunk) => chunk,
            None => {
                return Ok(false);
            },
        };
        if self.chunk_count < u64::MAX {
            self.chunk_count = self.chunk_count + 1;
        }
        self.process_chunk(chunk, snapshot)
    }

    /// Ingests one chunk: resample, append to the rolling buffer under its
    /// cap, and when the minimum-signal threshold is reached, extract,
    /// align, score, and measure the processing latency.
    fn process_chunk(&mut self, chunk: Vec<i32>, snapshot: &mut SessionSnapshot) -> (res: Result<
        bool,
        PronunciationError,
    >)
        requires
            old(self).wf(),
        ensures
            final(self).wf(),
            final(self).spec_latency_budget_ms() == old(self).spec_latency_budget_ms(),
            final(self).spec_recording() == old(self).spec_recording(),
            final(self).spec_capture_rate() == old(self).spec_capture_rate(),
            final(self).spec_reference() == old(self).spec_reference(),
            final(self).spec_reference_samples() == old(self).spec_reference_samples(),
            final(self).spec_aligner() == old(self).spec_aligner(),
            !old(self).spec_recording() ==> (res matches Err(e) && e.spec_message()
                == "capture stream not started"@) && final(self).spec_buffer()
                == old(self).spec_buffer() && *final(snapshot) == *old(snapshot),
            old(self).spec_recording() && !(MIN_CAPTURE_RATE <= old(self).spec_capture_rate()
                <= MAX_CAPTURE_RATE) ==> (res matches Err(e) && e.spec_message()
                == "capture sample rate out of range"@),
            old(self).spec_recording() && MIN_CAPTURE_RATE <= old(self).spec_capture_rate()
                <= MAX_CAPTURE_RATE && chunk@.len() > MAX_CHUNK_SAMPLES ==> (res matches Err(e)
                && e.spec_message() == "capture chunk too large"@),
            old(self).spec_chunk_admissible(chunk@) ==> final(self).spec_buffer()
                == rolled_buffer_spec(
                old(self).spec_buffer(),
                resampled_chunk_spec(
                    clamped_chunk_spec(chunk@),
                    old(self).spec_capture_rate(),
                    TARGET_SAMPLE_RATE as int,
                ),
                old(self).spec_reference_samples() + TARGET_SAMPLE_RATE as int / 2,
            ),
            old(self).spec_chunk_admissible(chunk@) ==> ((res matches Ok(b) && !b)
                <==> final(self).spec_buffer().len() < TARGET_SAMPLE_RATE as int
                / MIN_SIGNAL_FRACTION as int),
            res matches Ok(b) && !b ==> *final(snapshot) == *old(snapshot),
            res matches Ok(b) && b ==> old(self).spec_update_ok(*final(snapshot)),
    {
        let capture_rate = match self.capture_sample_rate {
            Some(rate) => rate,
            None => {
                return Err(PronunciationError::new("capture stream not started"));
            },
        };
        if capture_rate < MIN_CAPTURE_RATE || capture_rate > MAX_CAPTURE_RATE {
            return Err(PronunciationError::new("capture sample rate out of range"));
        }
        if chunk.len() > MAX_CHUNK_SAMPLES {
            return Err(PronunciationError::new("capture chunk too large"));
        }
        let clamped = clamp_samples(chunk);
        proof {
            lemma_chunk_resample_fits(clamped@.len() as int, capture_rate as int);
        }
        let resampled = match linear_resample(&clamped, capture_rate, TARGET_SAMPLE_RATE) {
            Ok(r) => r,
            Err(e) => {
                return Err(e);
            },
        };
        let max_samples = self.reference_samples + (TARGET_SAMPLE_RATE as usize) / 2;
        let mut buffer = Vec::new();
        std::mem::swap(&mut buffer, &mut self.learner_buffer);
        let ghost pre = buffer@;
        proof {
            lemma_bounded_concat(pre, resampled@);
        }
        proof {
            let cl = clamped@;
            let src = capture_rate as int;
            let tgt = TARGET_SAMPLE_RATE as int;
            if cl.len() == 0 || src == tgt {
                assert(resampled@ =~= resampled_chunk_spec(cl, src, tgt));
            } else {
                assert forall|i: int| 0 <= i < resampled@.len() implies #[trigger] resampled@[i]
                    == resampled_chunk_spec(cl, src, tgt)[i] by {
                    assert(resampled@[i] == resampled_at(cl, src, tgt, i));
                }
                assert(resampled@ =~= resampled_chunk_spec(cl, src, tgt));
            }
        }
        append_limited(&mut buffer, &resampled, max_samples);
        proof {
            let joined = pre + resampled@;
            assert forall|k: int| 0 <= k < buffer@.len() implies -SAMPLE_LIMIT
                <= #[trigger] buffer@[k] <= SAMPLE_LIMIT by {
                assert(buffer@[k] == joined[k + (joined.len() - buffer@.len())]);
            }
            if joined.len() > max_samples {
                assert(buffer@ =~= rolled_buffer_spec(pre, resampled@, max_samples as int));
            } else {
                assert(joined.skip(0) =~= joined);
                assert(buffer@ =~= rolled_buffer_spec(pre, resampled@, max_samples as int));
            }
        }
        std::mem::swap(&mut buffer, &mut self.learner_buffer);
        if self.learner_buffer.len() < min_required_samples() {
            return Ok(false);
        }
        let start_ms = now_ms();
        let samples = crate::num::copy_vec(&self.learner_buffer);
        let clip = RecordedClip::from_samples(samples, TARGET_SAMPLE_RATE);
        let features = match self.extractor.extract(&clip) {
            Ok(f) => f,
            Err(e) => {
                return Err(e);
            },
        };
        if !check_features(&features) {
            return Err(
                PronunciationError::new("feature extractor returned inconsistent features"),
            );
        }
        let alignment = match self.aligner.align(&self.reference_features, &features) {
            Ok(a) => a,
            Err(e) => {
                return Err(e);
            },
        };
        if !check_metrics_input(&alignment) {
            return Err(PronunciationError::new("alignment report out of scoring range"));
        }
        let scores = match self.metrics.score(&alignment) {
            Ok(s) => s,
            Err(e) => {
                return Err(e);
            },
        };
        let end_ms = now_ms();
        let latency_ms = if end_ms >= start_ms {
            end_ms - start_ms
        } else {
            0
        };
        let previous = take_snapshot(snapshot);
        let ghost report = alignment;
        let next = previous.with_alignment(alignment, scores).with_recording(true, true)
            .with_latency(latency_ms, self.latency_budget_ms);
        *snapshot = next;
        proof {
            assert(exists|f: PronunciationFeatures|
                f.wf() && some_report_ok(
                    old(self).spec_reference(),
                    f,
                    old(self).spec_aligner().weights,
                    old(self).spec_aligner().warp_band as int,
                    old(self).spec_aligner().segment_frames as int,
                    snapshot.alignment,
                )) by {
                assert(features.wf() && some_report_ok(
                    old(self).spec_reference(),
                    features,
                    old(self).spec_aligner().weights,
                    old(self).spec_aligner().warp_band as int,
                    old(self).spec_aligner().segment_frames as int,
                    snapshot.alignment,
                ));
            }
        }
        Ok(true)
    }
}

/// Moves a snapshot out of a mutable slot, leaving the empty snapshot.
fn take_snapshot(slot: &mut SessionSnapshot) -> (r: SessionSnapshot)
    ensures
        r == *old(slot),
{
    let mut taken = SessionSnapshot::new();
    std::mem::swap(&mut taken, slot);
    taken
}

proof fn lemma_chunk_resample_fits(n: int, src: int)
    requires
        0 <= n <= MAX_CHUNK_SAMPLES,
        MIN_CAPTURE_RATE <= src <= MAX_CAPTURE_RATE,
    ensures
        resample_len(n, src, TARGET_SAMPLE_RATE as int) <= 40_000_096,
{
    let tgt = TARGET_SAMPLE_RATE as int;
    assert(n * tgt + src - 1 <= 160_000_384_000) by (nonlinear_arith)
        requires
            0 <= n <= MAX_CHUNK_SAMPLES,
            tgt == 16_000,
            src <= 384_000;
    vstd::arithmetic::div_mod::lemma_div_is_ordered(n * tgt + src - 1, 160_000_384_000, src);
    assert(160_000_384_000int / src <= 160_000_384_000int / 4000) by {
        vstd::arithmetic::div_mod::lemma_div_is_ordered_by_denominator(
            160_000_384_000,
            4000,
            src,
        );
    }
    assert(160_000_384_000int / 4000 == 40_000_096);
}

proof fn lemma_bounded_concat(a: Seq<i32>, b: Seq<i32>)
    requires
        samples_bounded(a),
        samples_bounded(b),
    ensures
        samples_bounded(a + b),
{
    assert forall|i: int| 0 <= i < (a + b).len() implies -SAMPLE_LIMIT <= #[trigger] (a + b)[i]
        <= SAMPLE_LIMIT by {
        if i < a.len() {
            assert((a + b)[i] == a[i]);
        } else {
            assert((a + b)[i] == b[i - a.len()]);
        }
    }
}

/// The chunks a sample stream splits into: windows of `chunk_len`, the
/// last possibly shorter, covering the stream exactly in order.
pub open spec fn mock_chunks_ok(chunks: Seq<Vec<i32>>, samples: Seq<i32>, chunk_len: int) -> bool {
    &&& chunks.len() == (samples.len() + chunk_len - 1) / chunk_len
    &&& forall|k: int|
        0 <= k < chunks.len() ==> (#[trigger] chunks[k])@ == samples.subrange(
            k * chunk_len,
            if (k + 1) * chunk_len <= samples.len() {
                (k + 1) * chunk_len
            } else {
                samples.len() as int
            },
        )
}

/// A deterministic capture source for tests: hands out pre-recorded chunks.
pub struct MockCapture {
    sample_rate: u32,
    chunks: std::collections::VecDeque<Vec<i32>>,
    started: bool,
}

impl MockCapture {
    /// Whether `start` has been called (and `stop` has not).
    pub closed spec fn spec_started(&self) -> bool {
        self.started
    }

    /// The chunks not yet handed out, in delivery order.
    pub closed spec fn spec_remaining(&self) -> Seq<Vec<i32>> {
        self.chunks@
    }

    /// The sample rate the source reports.
    pub closed spec fn spec_rate(&self) -> u32 {
        self.sample_rate
    }

    /// Splits `samples` into chunks of `chunk_len` (everything in one
    /// chunk when zero); successive receives replay the stream exactly.
    pub fn from_samples(sample_rate: u32, samples: Vec<i32>, chunk_len: usize) -> (r: MockCapture)
        ensures
            !r.spec_started(),
            r.spec_rate() == sample_rate,
            chunk_len == 0 ==> r.spec_remaining().len() == 1 && r.spec_remaining()[0]@
                == samples@,
            chunk_len > 0 ==> mock_chunks_ok(r.spec_remaining(), samples@, chunk_len as int),
    {
        let mut chunks: std::collections::VecDeque<Vec<i32>> = std::collections::VecDeque::new();
        if chunk_len == 0 {
            let ghost sview = samples@;
            chunks.push_back(samples);
            proof {
                assert(chunks@.len() == 1 && chunks@[0]@ == sview);
            }
        } else {
            let n = samples.len();
            let mut start: usize = 0;
            proof {
                assert(0int * (chunk_len as int) == 0) by (nonlinear_arith);
            }
            while start < n
                invariant
                    n == samples@.len(),
                    chunk_len >= 1,
                    start <= n,
                    start == if chunks@.len() * chunk_len <= n {
                        (chunks@.len() * chunk_len) as int
                    } else {
                        n as int
                    },
                    chunks@.len() == 0 || (chunks@.len() - 1) * chunk_len < n,
                    forall|k: int|
                        0 <= k < chunks@.len() ==> (#[trigger] chunks@[k])@ == samples@.subrange(
                            k * chunk_len,
                            if (k + 1) * chunk_len <= n {
                                (k + 1) * chunk_len
                            } else {
                                n as int
                            },
                        ),
                decreases n - start,
            {
                proof {
                    assert(chunks@.len() * chunk_len < n);
                    assert((chunks@.len() * chunk_len) as int + chunk_len == (chunks@.len() + 1)
                        * chunk_len) by (nonlinear_arith);
                }
                let end = if n - start > chunk_len {
                    start + chunk_len
                } else {
                    n
                };
                let mut piece: Vec<i32> = Vec::new();
                let mut i = start;
                while i < end
                    invariant
                        start <= i <= end,
                        end <= n,
                        n == samples@.len(),
                        piece@ == samples@.subrange(start as int, i as int),
                    decreases end - i,
                {
                    piece.push(samples[i]);
                    proof {
                        assert(piece@ =~= samples@.subrange(start as int, i + 1));
                    }
                    i = i + 1;
                }
                chunks.push_back(piece);
                proof {
                    let len = chunks@.len() as int;
                    let cl = chunk_len as int;
                    assert((len - 1) * cl + cl == len * cl) by (nonlinear_arith);
                }
                start = end;
            }
            proof {
                let cl = chunk_len as int;
                let len = chunks@.len() as int;
                if n == 0 {
                    assert(len == 0);
                    assert((0 + cl - 1) / cl == 0) by (nonlinear_arith)
                        requires
                            cl >= 1;
                } else {
                    assert(len >= 1);
                    assert((len - 1) * cl < n <= len * cl);
                    assert(len == (n + cl - 1) / cl) by (nonlinear_arith)
                        requires
                            cl >= 1,
                            n >= 1,
                            (len - 1) * cl < n <= len * cl;
                }
            }
        }
        MockCapture { sample_rate, chunks, started: false }
    }

    /// Opens the source; the recorded chunks are untouched.
    pub fn start_source(&mut self) -> (r: Result<u32, PronunciationError>)
        ensures
            r matches Ok(rate) && rate == old(self).spec_rate(),
            final(self).spec_started(),
            final(self).spec_remaining() == old(self).spec_remaining(),
            final(self).spec_rate() == old(self).spec_rate(),
    {
        self.started = true;
        Ok(self.sample_rate)
    }

    /// Hands out the next recorded chunk, in order; nothing before
    /// `start` or after `stop`, and nothing once the stream is drained.
    pub fn next_chunk(&mut self) -> (r: Option<Vec<i32>>)
        ensures
            !old(self).spec_started() ==> r is None && *final(self) == *old(self),
            old(self).spec_started() && old(self).spec_remaining().len() == 0 ==> r is None
                && *final(self) == *old(self),
            old(self).spec_started() && old(self).spec_remaining().len() > 0 ==> (r matches Some(
                chunk,
            ) && chunk == old(self).spec_remaining()[0] && final(self).spec_remaining()
                == old(self).spec_remaining().drop_first() && final(self).spec_started()
                && final(self).spec_rate() == old(self).spec_rate()),
    {
        if !self.started {
            return None;
        }
        if self.chunks.len() == 0 {
            return None;
        }
        self.chunks.pop_front()
    }

    /// Releases the source; the undelivered chunks stay recorded.
    pub fn stop_source(&mut self)
        ensures
            !final(self).spec_started(),
            final(self).spec_remaining() == old(self).spec_remaining(),
            final(self).spec_rate() == old(self).spec_rate(),
    {
        self.started = false;
    }
}

impl CaptureSource for MockCapture {
    fn start(&mut self) -> Result<u32, PronunciationError> {
        self.start_source()
    }

    fn recv_chunk(&mut self, _timeout_ms: u64) -> Option<Vec<i32>> {
        self.next_chunk()
    }

    fn stop(&mut self) {
        self.stop_source();
    }
}

/// The largest absolute value of a series, never below one milli-unit.
pub open spec fn band_peak(v: Seq<i64>, n: int) -> int
    decreases n,
{
    if n <= 0 {
        1int
    } else {
        let prev = band_peak(v, n - 1);
        let a = if v[n - 1] < 0 {
            -v[n - 1] as int
        } else {
            v[n - 1] as int
        };
        if a > prev {
            a
        } else {
            prev
        }
    }
}

/// Each value scaled by the series peak, clamped into [0, 1000].
pub open spec fn normalize_band_spec(v: Seq<i64>) -> Seq<i64> {
    let peak = band_peak(v, v.len() as int);
    v.map_values(
        |x: i64|
            {
                let a = if x < 0 {
                    -x as int
                } else {
                    x as int
                };
                let scaled = a * 1000 / peak;
                (if scaled > 1000 {
                    1000int
                } else {
                    scaled
                }) as i64
            },
    )
}

/// Scales a series by its own peak so the largest magnitude maps to one.
fn normalize_band(values: &Vec<i64>) -> (r: Vec<i64>)
    requires
        series_wf(values@),
    ensures
        r@ == normalize_band_spec(values@),
{
    let n = values.len();
    let mut peak: i64 = 1;
    for i in 0..n
        invariant
            n == values@.len(),
            series_wf(values@),
            peak == band_peak(values@, i as int),
            1 <= peak <= FEATURE_LIMIT,
    {
        let a = if values[i] < 0 {
            -values[i]
        } else {
            values[i]
        };
        if a > peak {
            peak = a;
        }
    }
    proof {
        assert(peak == band_peak(values@, values@.len() as int));
    }
    let mut out: Vec<i64> = Vec::new();
    for i in 0..n
        invariant
            n == values@.len(),
            series_wf(values@),
            peak == band_peak(values@, values@.len() as int),
            1 <= peak <= FEATURE_LIMIT,
            out@.len() == i,
            forall|k: int| 0 <= k < i ==> #[trigger] out@[k] == normalize_band_spec(values@)[k],
    {
        let a = if values[i] < 0 {
            -values[i]
        } else {
            values[i]
        };
        let scaled_u: u64 = ((a as u64) * 1000) / (peak as u64);
        let scaled: i64 = if scaled_u > 1000 {
            1000
        } else {
            scaled_u as i64
        };
        proof {
            assert((a as int) * 1000 <= FEATURE_LIMIT * 1000) by (nonlinear_arith)
                requires
                    0 <= a as int <= FEATURE_LIMIT;
        }
        out.push(scaled);
    }
    proof {
        assert(out@ =~= normalize_band_spec(values@));
    }
    out
}

} // verus!


