use flowalyzer::audio::resample::linear_resample;
use flowalyzer::pronunciation::session::engine::{
    CaptureSource, FeatureSource, MockCapture, SessionEngine,
};
use flowalyzer::pronunciation::session::{
    append_limited, drive_decision, min_required_samples, poll_command, DriveAction,
    SessionCommand, SessionController, SessionSnapshot,
};
use flowalyzer::pronunciation::{
    AlignmentWeights, PronunciationError, PronunciationFeatures, RecordedClip,
};

const SAMPLE_RATE: u32 = 16_000;

// A deterministic extractor: one frame per 160 samples, energy from the
// mean absolute amplitude, a mild flux pattern.
struct TestExtractor;

impl FeatureSource for TestExtractor {
    fn extract(&self, clip: &RecordedClip) -> Result<PronunciationFeatures, PronunciationError> {
        let frames = (clip.samples.len() / 160).min(1000);
        let mut energy = Vec::new();
        for f in 0..frames {
            let window = &clip.samples[f * 160..(f + 1) * 160];
            let mean: i64 =
                window.iter().map(|&s| (s as i64).abs()).sum::<i64>() / window.len() as i64;
            energy.push(mean.min(1_000_000));
        }
        Ok(PronunciationFeatures {
            frame_count: frames,
            mel_bands: 1,
            mel_spectrogram: energy.iter().map(|&e| vec![e / 2]).collect(),
            spectral_flux: energy.iter().map(|&e| e / 4).collect(),
            energy: energy.clone(),
            mfcc: energy.iter().map(|&e| vec![e]).collect(),
            deltas: energy.iter().map(|_| vec![0]).collect(),
            delta_deltas: energy.iter().map(|_| vec![0]).collect(),
            pitch_contour: energy.iter().map(|_| 0).collect(),
        })
    }
}

fn sine_wave(frequency: f32, duration_secs: f32) -> Vec<i32> {
    let total_samples = (SAMPLE_RATE as f32 * duration_secs) as usize;
    (0..total_samples)
        .map(|index| {
            let t = index as f32 / SAMPLE_RATE as f32;
            ((2.0 * std::f32::consts::PI * frequency * t).sin() * 1000.0) as i32
        })
        .collect()
}

#[test]
fn session_engine_produces_alignment_with_mock_capture() {
    let reference_samples = sine_wave(440.0, 1.0);
    let learner_samples = sine_wave(445.0, 1.0);
    let reference_clip = RecordedClip::from_samples(reference_samples, SAMPLE_RATE);
    let capture = MockCapture::from_samples(SAMPLE_RATE, learner_samples, 1024);
    let mut engine = SessionEngine::new(
        reference_clip,
        AlignmentWeights::default(),
        200,
        capture,
        TestExtractor,
    )
    .unwrap();
    let mut snapshot = SessionSnapshot::new();
    engine.start(&mut snapshot).unwrap();
    let mut updates = 0;
    for _ in 0..32 {
        if engine.poll(&mut snapshot).unwrap() {
            assert!((0..=1000).contains(&snapshot.scores.overall));
            updates += 1;
            break;
        }
    }
    engine.stop(&mut snapshot);
    assert!(updates > 0, "engine should emit at least one update");
    assert!(!snapshot.recording);
}

#[test]
fn session_snapshot_propagates_errors() {
    let mut snapshot = SessionSnapshot::new();
    assert!(
        snapshot.error.is_none(),
        "initial snapshot should have no error"
    );
    let error_msg = "test error message";
    snapshot = snapshot.with_error_message(error_msg.to_string());
    assert_eq!(
        snapshot.error.as_deref(),
        Some(error_msg),
        "snapshot should contain error message"
    );
}

#[test]
fn stop_before_start_is_a_harmless_no_op() {
    let reference_clip = RecordedClip::from_samples(sine_wave(330.0, 0.5), SAMPLE_RATE);
    let capture = MockCapture::from_samples(SAMPLE_RATE, Vec::new(), 0);
    let mut engine = SessionEngine::new(
        reference_clip,
        AlignmentWeights::default(),
        200,
        capture,
        TestExtractor,
    )
    .unwrap();
    let mut snapshot = SessionSnapshot::new();
    engine.stop(&mut snapshot);
    assert!(!snapshot.recording);
    assert!(!snapshot.reference_playing);
    assert!(snapshot.error.is_none());
}

#[test]
fn buffer_stays_under_its_cap_after_any_append_sequence() {
    let mut buffer: Vec<i32> = Vec::new();
    let max_samples = 1_000;
    for round in 0..50 {
        let chunk: Vec<i32> = (0..137).map(|i| (round * 137 + i) as i32).collect();
        append_limited(&mut buffer, &chunk, max_samples);
        assert!(buffer.len() <= max_samples);
    }
    // the cap keeps the most recent window: the newest sample is last
    assert_eq!(*buffer.last().unwrap(), 50 * 137 - 1);
    assert_eq!(buffer.len(), max_samples);
}

#[test]
fn append_under_the_cap_keeps_everything() {
    let mut buffer: Vec<i32> = vec![1, 2, 3];
    append_limited(&mut buffer, &vec![4, 5], 10);
    assert_eq!(buffer, vec![1, 2, 3, 4, 5]);
    append_limited(&mut buffer, &vec![6, 7, 8, 9, 10, 11], 8);
    assert_eq!(buffer, vec![4, 5, 6, 7, 8, 9, 10, 11]);
}

#[test]
fn minimum_signal_threshold_is_a_tenth_of_a_second() {
    assert_eq!(min_required_samples(), 1600);
}

#[test]
fn latency_budget_overrun_is_reported() {
    let snapshot = SessionSnapshot::new().with_latency(250, 200);
    assert_eq!(snapshot.latency_ms, 250);
    let message = snapshot.error.expect("over-budget latency must carry a warning");
    assert!(message.contains("exceeds budget"));
    assert!(message.contains("250"));
    assert!(message.contains("200"));
}

#[test]
fn latency_within_budget_clears_a_stale_error() {
    let snapshot = SessionSnapshot::new()
        .with_error_message("previous".to_string())
        .with_latency(100, 200);
    assert_eq!(snapshot.latency_ms, 100);
    assert!(snapshot.error.is_none());
}

#[test]
fn controller_reports_a_closed_channel() {
    let (tx, rx) = std::sync::mpsc::channel::<SessionCommand>();
    let controller = SessionController::new(tx);
    controller.start().unwrap();
    assert_eq!(rx.try_recv().unwrap(), SessionCommand::Start);
    drop(rx);
    let error = controller.stop().unwrap_err();
    assert_eq!(error.message(), "failed to stop session");
}

#[test]
fn poll_command_reads_disconnect_as_shutdown() {
    let (tx, rx) = std::sync::mpsc::channel::<SessionCommand>();
    assert_eq!(poll_command(&rx), None);
    tx.send(SessionCommand::Start).unwrap();
    assert_eq!(poll_command(&rx), Some(SessionCommand::Start));
    drop(tx);
    assert_eq!(poll_command(&rx), Some(SessionCommand::Shutdown));
}

#[test]
fn preserves_constant_signal_after_resample() {
    let input = vec![500; 480];
    let resampled = linear_resample(&input, 48_000, 16_000).unwrap();
    let expected_len = (480usize * 16_000).div_ceil(48_000);
    assert_eq!(resampled.len(), expected_len);
    assert!(resampled.iter().all(|&sample| sample == 500));
}

#[test]
fn resample_rejects_zero_rates() {
    assert!(linear_resample(&vec![1, 2, 3], 0, 16_000).is_err());
    assert!(linear_resample(&vec![1, 2, 3], 16_000, 0).is_err());
}

#[test]
fn resample_at_equal_rates_is_identity() {
    let input = vec![1, -2, 3, -4];
    assert_eq!(linear_resample(&input, 8_000, 8_000).unwrap(), input);
}

#[test]
fn mock_capture_hands_out_chunks_only_after_start() {
    let mut capture = MockCapture::from_samples(16_000, vec![1, 2, 3, 4, 5], 2);
    assert_eq!(capture.recv_chunk(20), None);
    assert_eq!(capture.start().unwrap(), 16_000);
    assert_eq!(capture.recv_chunk(20), Some(vec![1, 2]));
    assert_eq!(capture.recv_chunk(20), Some(vec![3, 4]));
    assert_eq!(capture.recv_chunk(20), Some(vec![5]));
    assert_eq!(capture.recv_chunk(20), None);
    capture.stop();
}

#[test]
fn reference_alignment_normalizes_the_energy_band() {
    let samples = vec![0i32; 16_000];
    let reference_clip = RecordedClip::from_samples(samples, SAMPLE_RATE);
    let capture = MockCapture::from_samples(SAMPLE_RATE, Vec::new(), 0);
    struct FixedExtractor;
    impl FeatureSource for FixedExtractor {
        fn extract(
            &self,
            _clip: &RecordedClip,
        ) -> Result<PronunciationFeatures, PronunciationError> {
            Ok(PronunciationFeatures {
                frame_count: 3,
                mel_bands: 1,
                mel_spectrogram: vec![vec![0], vec![0], vec![0]],
                spectral_flux: vec![0, 0, 0],
                energy: vec![200, -400, 100],
                mfcc: vec![vec![0], vec![0], vec![0]],
                deltas: vec![vec![0], vec![0], vec![0]],
                delta_deltas: vec![vec![0], vec![0], vec![0]],
                pitch_contour: vec![5, 6, 7],
            })
        }
    }
    let engine = SessionEngine::new(
        reference_clip,
        AlignmentWeights::default(),
        200,
        capture,
        FixedExtractor,
    )
    .unwrap();
    let report = engine.reference_alignment();
    assert_eq!(report.total_duration_ms, 1000);
    assert_eq!(report.reference_energy, vec![200, -400, 100]);
    // the peak magnitude 400 maps to full scale
    assert_eq!(report.similarity_band, vec![500, 1000, 250]);
    assert_eq!(report.contour_band, vec![5, 6, 7]);
    assert!(report.phonemes.is_empty());
}

#[test]
fn drive_dispatch_ends_the_take_on_stop_and_shutdown() {
    assert_eq!(drive_decision(None), DriveAction::KeepPolling);
    assert_eq!(
        drive_decision(Some(SessionCommand::Start)),
        DriveAction::KeepPolling
    );
    assert_eq!(drive_decision(Some(SessionCommand::Stop)), DriveAction::StopTake);
    assert_eq!(
        drive_decision(Some(SessionCommand::Shutdown)),
        DriveAction::ShutDown
    );
}
