use flowalyzer::pronunciation::alignment::AudioAligner;
use flowalyzer::pronunciation::metrics::MetricCalculator;
use flowalyzer::pronunciation::{AlignmentWeights, PronunciationFeatures};

// Builds a feature batch from per-frame (energy, flux) milli-unit pairs:
// one MFCC coefficient mirrors the energy so distinct frames have distinct
// spectra, and the pitch contour stays flat.
fn features_from(profile: &[(i64, i64)]) -> PronunciationFeatures {
    let n = profile.len();
    PronunciationFeatures {
        frame_count: n,
        mel_bands: 1,
        mel_spectrogram: profile.iter().map(|&(e, _)| vec![e / 2]).collect(),
        spectral_flux: profile.iter().map(|&(_, f)| f).collect(),
        energy: profile.iter().map(|&(e, _)| e).collect(),
        mfcc: profile.iter().map(|&(e, _)| vec![e]).collect(),
        deltas: profile.iter().map(|_| vec![0]).collect(),
        delta_deltas: profile.iter().map(|_| vec![0]).collect(),
        pitch_contour: profile.iter().map(|_| 0).collect(),
    }
}

fn varied_profile(frames: usize) -> Vec<(i64, i64)> {
    (0..frames)
        .map(|i| (100 + (i as i64) * 7 % 140, 40 + (i as i64 % 5) * 10))
        .collect()
}

#[test]
fn alignment_perfect_match_produces_high_scores() {
    let profile = varied_profile(40);
    let reference = features_from(&profile);
    let learner = features_from(&profile);
    let report = AudioAligner::new(AlignmentWeights::default())
        .align(&reference, &learner)
        .unwrap();
    let scores = MetricCalculator::new().score(&report).unwrap();

    // identical inputs: no timing offset (milli-milliseconds), top scores
    assert!(report.global_time_offset_mms.abs() < 1_000);
    assert!(scores.overall > 900);
    assert!(scores.timing > 950);
    assert!(scores.intonation > 900);
    assert!(!report.phonemes.is_empty());
    // identical inputs also mean each segment aligns frame to frame
    for phoneme in &report.phonemes {
        assert_eq!(phoneme.timing_delta_mms, 0);
        assert_eq!(phoneme.similarity, 1000);
        assert_eq!(phoneme.articulation_variance, 0);
    }
}

#[test]
fn alignment_detects_timing_shift() {
    let profile = varied_profile(40);
    let reference = features_from(&profile);
    // the learner starts five frames (50 ms) late, after leading silence
    let mut shifted: Vec<(i64, i64)> = vec![(0, 0); 5];
    shifted.extend_from_slice(&profile);
    let learner = features_from(&shifted);
    let report = AudioAligner::new(AlignmentWeights::default())
        .align(&reference, &learner)
        .unwrap();
    let scores = MetricCalculator::new().score(&report).unwrap();

    assert!(report.global_time_offset_mms.abs() >= 5_000);
    assert!((25_000..=75_000).contains(&report.global_time_offset_mms));
    assert!(scores.timing < 980);
    assert!(scores.overall < 990);
}

#[test]
fn alignment_detects_articulation_variance() {
    let profile = varied_profile(40);
    let reference = features_from(&profile);
    // same spectra and energy, but the spectral flux swings twice as far
    let noisy: Vec<(i64, i64)> = profile.iter().map(|&(e, f)| (e, f * 2 + 300)).collect();
    let learner = features_from(&noisy);
    let report = AudioAligner::new(AlignmentWeights::default())
        .align(&reference, &learner)
        .unwrap();
    let scores = MetricCalculator::new().score(&report).unwrap();

    assert!(report.global_time_offset_mms.abs() <= 5_000);
    assert!(scores.articulation < 700);
    // per segment, the variance is measurably above the identical-input case
    for phoneme in &report.phonemes {
        assert!(phoneme.articulation_variance > 100);
    }
}

#[test]
fn alignment_rejects_empty_reference() {
    let learner = features_from(&varied_profile(8));
    let empty = features_from(&[]);
    let err = AudioAligner::new(AlignmentWeights::default())
        .align(&empty, &learner)
        .unwrap_err();
    assert!(err.message().contains("reference features contain no frames"));
}

#[test]
fn alignment_rejects_empty_learner() {
    let reference = features_from(&varied_profile(8));
    let empty = features_from(&[]);
    let err = AudioAligner::new(AlignmentWeights::default())
        .align(&reference, &empty)
        .unwrap_err();
    assert!(err.message().contains("learner features contain no frames"));
}

#[test]
fn alignment_costs_stay_bounded() {
    // wildly different inputs: every per-frame cost is clamped at 6.0
    let reference = features_from(&vec![(1_000_000, 1_000_000); 30]);
    let learner = features_from(&vec![(-1_000_000, -1_000_000); 12]);
    let report = AudioAligner::new(AlignmentWeights::default())
        .align(&reference, &learner)
        .unwrap();
    assert!(report.reference_path_cost >= 0);
    assert!(report.reference_path_cost <= 6_000);
    assert_eq!(report.reference_path_cost, report.learner_path_cost);
    assert!((0..=1000).contains(&report.confidence));
    for phoneme in &report.phonemes {
        assert!((0..=1000).contains(&phoneme.similarity));
    }
}

#[test]
fn alignment_report_carries_energy_and_pitch_series() {
    let profile = varied_profile(25);
    let reference = features_from(&profile);
    let learner = features_from(&profile);
    let report = AudioAligner::new(AlignmentWeights::default())
        .align(&reference, &learner)
        .unwrap();
    assert_eq!(report.reference_energy, reference.energy);
    assert_eq!(report.learner_energy, learner.energy);
    assert_eq!(report.reference_pitch, reference.pitch_contour);
    assert_eq!(report.learner_pitch, learner.pitch_contour);
    assert_eq!(report.total_duration_ms, 250);
    assert_eq!(report.similarity_band.len(), report.phonemes.len());
}

#[test]
fn segments_cover_the_path_in_windows() {
    let profile = varied_profile(40);
    let reference = features_from(&profile);
    let learner = features_from(&profile);
    let report = AudioAligner::new(AlignmentWeights::default())
        .align(&reference, &learner)
        .unwrap();
    // a 40-step diagonal path falls into windows of 18: 18 + 18 + 4
    assert_eq!(report.phonemes.len(), 3);
    assert_eq!(report.phonemes[0].symbol, "S1");
    assert_eq!(report.phonemes[1].symbol, "S2");
    assert_eq!(report.phonemes[2].symbol, "S3");
    assert_eq!(report.phonemes[0].reference_start_ms, 0);
    assert_eq!(report.phonemes[0].reference_end_ms, 180);
    assert_eq!(report.phonemes[1].reference_start_ms, 180);
    assert_eq!(report.phonemes[2].reference_end_ms, 400);
}

#[test]
fn identical_constant_inputs_have_full_confidence() {
    // constant features: every in-band cell costs zero
    let reference = features_from(&vec![(500, 100); 20]);
    let learner = features_from(&vec![(500, 100); 20]);
    let report = AudioAligner::new(AlignmentWeights::default())
        .align(&reference, &learner)
        .unwrap();
    assert_eq!(report.confidence, 1000);
}
