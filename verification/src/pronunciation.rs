//! The pronunciation core: shared data model for features, alignment
//! reports and session configuration.
//!
//! Scalar convention: acoustic feature values, weights, costs, similarity
//! and confidence are fixed-point integers in milli-units (1000 = 1.0).
//! Millisecond fields that need sub-millisecond precision (timing deltas,
//! offsets) are in milli-milliseconds (1000 = 1 ms).

pub mod alignment;
pub mod cli;
pub mod metrics;
pub mod session;

use vstd::prelude::*;

use crate::audio::capture::LatencyRange;

verus! {

/// Target sample rate every clip is brought to before analysis, in Hz.
pub const TARGET_SAMPLE_RATE: u32 = 16_000;

/// Largest admissible magnitude of a feature value or weight, in
/// milli-units: 1000.0 in real terms. Keeps all alignment arithmetic far
/// from overflow.
pub const FEATURE_LIMIT: i64 = 1_000_000;

/// Largest admissible frame count of a feature matrix.
pub const MAX_FRAMES: usize = 100_000;

/// Largest admissible width (coefficients per frame) of a feature matrix.
pub const MAX_WIDTH: usize = 4_096;

/// Lightweight error type for the pronunciation pipeline.
#[derive(Debug, Clone)]
pub struct PronunciationError {
    message: String,
}

impl PronunciationError {
    pub fn new(message: &str) -> (r: PronunciationError)
        ensures
            r.spec_message() == message@,
    {
        PronunciationError { message: message.to_owned() }
    }

    /// The human-readable description carried by this error.
    pub fn message(&self) -> (r: &str)
        ensures
            r@ == self.spec_message(),
    {
        self.message.as_str()
    }

    /// The description, as a spec-level character sequence.
    pub closed spec fn spec_message(&self) -> Seq<char> {
        self.message@
    }
}

/// Recorded audio clip: mono samples in milli-units (1000 = full scale 1.0).
#[derive(Debug, Clone)]
pub struct RecordedClip {
    pub samples: Vec<i32>,
    pub sample_rate: u32,
    pub channels: u8,
    pub duration_ms: u64,
}

impl RecordedClip {
    /// Builds a mono clip; the duration is derived from the sample count,
    /// rounded down to whole milliseconds.
    pub fn from_samples(samples: Vec<i32>, sample_rate: u32) -> (r: RecordedClip)
        requires
            sample_rate > 0,
            samples@.len() <= 2_000_000_000,
        ensures
            r.samples@ == samples@,
            r.sample_rate == sample_rate,
            r.channels == 1,
            r.duration_ms == samples@.len() as int * 1000 / sample_rate as int,
    {
        let len: u64 = samples.len() as u64;
        let duration_ms: u64 = len * 1000 / (sample_rate as u64);
        RecordedClip { samples, sample_rate, channels: 1, duration_ms }
    }
}

/// Per-frame acoustic descriptors for one clip. Matrix values are
/// fixed-point milli-units; every per-frame array shares the same frame
/// count.
#[derive(Debug, Clone)]
pub struct PronunciationFeatures {
    pub frame_count: usize,
    pub mel_bands: usize,
    pub mel_spectrogram: Vec<Vec<i64>>,
    pub spectral_flux: Vec<i64>,
    pub energy: Vec<i64>,
    pub mfcc: Vec<Vec<i64>>,
    pub deltas: Vec<Vec<i64>>,
    pub delta_deltas: Vec<Vec<i64>>,
    pub pitch_contour: Vec<i64>,
}

/// All rows of `m` have width `w`, with every value bounded.
pub open spec fn matrix_wf(m: Seq<Vec<i64>>, w: int) -> bool {
    &&& 0 <= w <= MAX_WIDTH
    &&& forall|i: int| 0 <= i < m.len() ==> (#[trigger] m[i])@.len() == w
    &&& forall|i: int| 0 <= i < m.len() ==> series_wf((#[trigger] m[i])@)
}

/// Every value of `v` is bounded.
pub open spec fn series_wf(v: Seq<i64>) -> bool {
    forall|i: int| 0 <= i < v.len() ==> -FEATURE_LIMIT <= #[trigger] v[i] <= FEATURE_LIMIT
}

impl PronunciationFeatures {
    /// Data-model invariant: consistent frame counts, uniform row widths,
    /// bounded values.
    pub open spec fn wf(&self) -> bool {
        &&& self.frame_count <= MAX_FRAMES
        &&& self.mel_bands <= MAX_WIDTH
        &&& self.mel_spectrogram@.len() == self.frame_count
        &&& self.spectral_flux@.len() == self.frame_count
        &&& self.energy@.len() == self.frame_count
        &&& self.mfcc@.len() == self.frame_count
        &&& self.deltas@.len() == self.frame_count
        &&& self.delta_deltas@.len() == self.frame_count
        &&& self.pitch_contour@.len() == self.frame_count
        &&& matrix_wf(self.mel_spectrogram@, self.mel_bands as int)
        &&& matrix_wf(self.mfcc@, self.width())
        &&& matrix_wf(self.deltas@, self.width())
        &&& matrix_wf(self.delta_deltas@, self.width())
        &&& series_wf(self.spectral_flux@)
        &&& series_wf(self.energy@)
        &&& series_wf(self.pitch_contour@)
    }

    /// Coefficients per MFCC frame (0 for an empty matrix).
    pub open spec fn width(&self) -> int {
        if self.mfcc@.len() == 0 {
            0int
        } else {
            self.mfcc@[0]@.len() as int
        }
    }

    /// An empty feature batch.
    pub fn empty() -> (r: PronunciationFeatures)
        ensures
            r.frame_count == 0,
            r.wf(),
    {
        PronunciationFeatures {
            frame_count: 0,
            mel_bands: 0,
            mel_spectrogram: Vec::new(),
            spectral_flux: Vec::new(),
            energy: Vec::new(),
            mfcc: Vec::new(),
            deltas: Vec::new(),
            delta_deltas: Vec::new(),
            pitch_contour: Vec::new(),
        }
    }
}

/// One aligned segment of the path, reported as a timing/quality unit.
/// Millisecond boundaries are plain ms; `timing_delta_mms` is in
/// milli-milliseconds; similarity and articulation are milli-units in
/// [0, 1000].
#[derive(Debug, Clone)]
pub struct AlignedPhoneme {
    pub symbol: String,
    pub reference_start_ms: u64,
    pub reference_end_ms: u64,
    pub learner_start_ms: u64,
    pub learner_end_ms: u64,
    pub timing_delta_mms: i64,
    pub similarity: i64,
    pub articulation_variance: i64,
    pub contour_similarity: i64,
}

/// Alignment report describing coarse timing and similarity comparisons.
/// Costs and confidence are milli-units; `global_time_offset_mms` is in
/// milli-milliseconds.
#[derive(Debug, Clone)]
pub struct AlignmentReport {
    pub phonemes: Vec<AlignedPhoneme>,
    pub total_duration_ms: u64,
    pub reference_path_cost: i64,
    pub learner_path_cost: i64,
    pub global_time_offset_mms: i64,
    pub confidence: i64,
    pub reference_energy: Vec<i64>,
    pub learner_energy: Vec<i64>,
    pub similarity_band: Vec<i64>,
    pub contour_band: Vec<i64>,
    pub reference_pitch: Vec<i64>,
    pub learner_pitch: Vec<i64>,
}

impl AlignmentReport {
    /// A report with no content, used before any alignment has run.
    pub fn empty() -> (r: AlignmentReport)
        ensures
            r.phonemes@.len() == 0,
            r.total_duration_ms == 0,
            r.reference_path_cost == 0,
            r.learner_path_cost == 0,
            r.global_time_offset_mms == 0,
            r.confidence == 0,
            r.reference_energy@.len() == 0,
            r.learner_energy@.len() == 0,
            r.similarity_band@.len() == 0,
            r.contour_band@.len() == 0,
            r.reference_pitch@.len() == 0,
            r.learner_pitch@.len() == 0,
    {
        AlignmentReport {
            phonemes: Vec::new(),
            total_duration_ms: 0,
            reference_path_cost: 0,
            learner_path_cost: 0,
            global_time_offset_mms: 0,
            confidence: 0,
            reference_energy: Vec::new(),
            learner_energy: Vec::new(),
            similarity_band: Vec::new(),
            contour_band: Vec::new(),
            reference_pitch: Vec::new(),
            learner_pitch: Vec::new(),
        }
    }
}

/// Aggregate pronunciation scores in milli-units ([0, 1000]).
#[derive(Debug, Clone)]
pub struct PronunciationScores {
    pub overall: i64,
    pub timing: i64,
    pub articulation: i64,
    pub intonation: i64,
    pub per_phoneme: Vec<PhonemeScore>,
}

impl PronunciationScores {
    /// Neutral scores, used before any alignment has been scored.
    pub fn empty() -> (r: PronunciationScores)
        ensures
            r.overall == 0,
            r.timing == 0,
            r.articulation == 0,
            r.intonation == 0,
            r.per_phoneme@.len() == 0,
    {
        PronunciationScores {
            overall: 0,
            timing: 0,
            articulation: 0,
            intonation: 0,
            per_phoneme: Vec::new(),
        }
    }
}

/// Per-segment scores in milli-units.
#[derive(Debug, Clone)]
pub struct PhonemeScore {
    pub symbol: String,
    pub timing: i64,
    pub articulation: i64,
    pub intonation: i64,
}

/// Weighting factors applied during alignment cost computation, in
/// milli-units (300 = 0.3). All seven are non-negative by type.
#[derive(Debug, Clone)]
pub struct AlignmentWeights {
    pub mfcc: u32,
    pub delta: u32,
    pub delta_delta: u32,
    pub mel: u32,
    pub energy: u32,
    pub flux: u32,
    pub pitch: u32,
}

impl AlignmentWeights {
    /// Every weight is within the admissible magnitude.
    pub open spec fn wf(&self) -> bool {
        &&& self.mfcc <= FEATURE_LIMIT
        &&& self.delta <= FEATURE_LIMIT
        &&& self.delta_delta <= FEATURE_LIMIT
        &&& self.mel <= FEATURE_LIMIT
        &&& self.energy <= FEATURE_LIMIT
        &&& self.flux <= FEATURE_LIMIT
        &&& self.pitch <= FEATURE_LIMIT
    }
}

impl Default for AlignmentWeights {
    /// The stock weighting: mfcc 0.3, delta 0.15, delta-delta 0.05,
    /// mel 0.1, energy 0.15, flux 0.05, pitch 0.2.
    fn default() -> (r: AlignmentWeights)
        ensures
            r.mfcc == 300 && r.delta == 150 && r.delta_delta == 50,
            r.mel == 100 && r.energy == 150 && r.flux == 50 && r.pitch == 200,
            r.wf(),
    {
        AlignmentWeights {
            mfcc: 300,
            delta: 150,
            delta_delta: 50,
            mel: 100,
            energy: 150,
            flux: 50,
            pitch: 200,
        }
    }
}

/// Capture configuration shared across workflows; the latency window is an
/// inclusive range of milliseconds.
#[derive(Debug, Clone)]
pub struct CaptureSettings {
    pub device_name: Option<String>,
    pub sample_rate: u32,
    pub latency_ms: LatencyRange,
}

impl CaptureSettings {
    pub fn new(device_name: Option<String>, sample_rate: u32, latency_ms: LatencyRange) -> (r:
        CaptureSettings)
        ensures
            r.device_name == device_name,
            r.sample_rate == sample_rate,
            r.latency_ms == latency_ms,
    {
        CaptureSettings { device_name, sample_rate, latency_ms }
    }
}

/// Session configuration shared across CLI, analysis and UI. Paths are kept
/// as plain strings; resolving them against the file system happens outside
/// this crate.
#[derive(Debug, Clone)]
pub struct SessionConfig {
    pub reference_wav: String,
    pub assets_root: String,
    pub capture: CaptureSettings,
    pub alignment: AlignmentWeights,
    pub latency_budget_ms: u32,
    pub ui_enabled: bool,
}

impl SessionConfig {
    pub fn new(
        reference_wav: String,
        assets_root: String,
        capture: CaptureSettings,
        alignment: AlignmentWeights,
    ) -> (r: SessionConfig)
        ensures
            r.reference_wav@ == reference_wav@,
            r.assets_root@ == assets_root@,
            r.capture == capture,
            r.alignment == alignment,
            r.latency_budget_ms == 200,
            r.ui_enabled == false,
    {
        SessionConfig {
            reference_wav,
            assets_root,
            capture,
            alignment,
            latency_budget_ms: 200,
            ui_enabled: false,
        }
    }

    pub fn with_ui(self, enabled: bool) -> (r: SessionConfig)
        ensures
            r == (SessionConfig { ui_enabled: enabled, ..self }),
    {
        let mut next = self;
        next.ui_enabled = enabled;
        next
    }

    pub fn with_latency_budget(self, budget_ms: u32) -> (r: SessionConfig)
        ensures
            r == (SessionConfig {
                latency_budget_ms: if budget_ms >= 1 {
                    budget_ms
                } else {
                    1u32
                },
                ..self
            }),
    {
        let mut next = self;
        next.latency_budget_ms = if budget_ms >= 1 {
            budget_ms
        } else {
            1
        };
        next
    }
}

/// The checks on a session configuration that are pure data validation:
/// nonempty reference path, positive sample rate, a usable latency window
/// and a positive latency budget. (Whether `assets_root` exists on disk is
/// checked by the embedding program.)
pub fn validate_config(config: &SessionConfig) -> (r: Result<(), PronunciationError>)
    ensures
        r is Ok <==> config_valid(*config),
{
    if config.reference_wav.unicode_len() == 0 {
        return Err(PronunciationError::new("reference WAV path missing"));
    }
    if config.capture.sample_rate == 0 {
        return Err(PronunciationError::new("sample_rate must be positive"));
    }
    let min_latency = config.capture.latency_ms.min;
    let max_latency = config.capture.latency_ms.max;
    if min_latency == 0 && max_latency == 0 {
        return Err(PronunciationError::new("latency range must specify a positive window"));
    }
    if max_latency < min_latency {
        return Err(PronunciationError::new("latency range must have max >= min"));
    }
    if config.latency_budget_ms == 0 {
        return Err(PronunciationError::new("latency budget must be positive"));
    }
    Ok(())
}

/// When a session configuration passes pure validation.
pub open spec fn config_valid(config: SessionConfig) -> bool {
    &&& config.reference_wav@.len() > 0
    &&& config.capture.sample_rate > 0
    &&& !(config.capture.latency_ms.min == 0 && config.capture.latency_ms.max == 0)
    &&& config.capture.latency_ms.max >= config.capture.latency_ms.min
    &&& config.latency_budget_ms > 0
}

} // verus!
