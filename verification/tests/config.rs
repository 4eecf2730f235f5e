use flowalyzer::audio::capture::{
    channel_capacity, default_latency_range, frames_for_duration, CaptureConfig, LatencyRange,
};
use flowalyzer::pronunciation::{
    validate_config, AlignmentWeights, CaptureSettings, SessionConfig,
};
use flowalyzer::ui::{ControlActions, ControlStripOutput};

#[test]
fn capture_config_defaults() {
    let config = CaptureConfig::new(2_000);
    assert_eq!(config.sample_rate, 16_000);
    assert_eq!(config.latency_ms, default_latency_range());
    assert_eq!(config.latency_ms, LatencyRange { min: 100, max: 200 });
    assert_eq!(config.duration_ms, 2_000);
    assert!(config.device_name.is_none());
}

#[test]
fn frames_round_up_to_cover_the_duration() {
    assert_eq!(frames_for_duration(1_000, 16_000), 16_000);
    assert_eq!(frames_for_duration(1, 16_000), 16);
    assert_eq!(frames_for_duration(0, 16_000), 0);
    // 1 ms at 44.1 kHz is 44.1 frames: 45 are needed
    assert_eq!(frames_for_duration(1, 44_100), 45);
}

#[test]
fn channel_capacity_never_drops_below_two() {
    assert_eq!(channel_capacity(16_000, &LatencyRange { min: 100, max: 200 }), 3);
    assert_eq!(channel_capacity(100, &LatencyRange { min: 1, max: 1 }), 2);
    // a reversed window falls back to the larger bound
    assert_eq!(
        channel_capacity(16_000, &LatencyRange { min: 200, max: 100 }),
        3
    );
}

fn base_config() -> SessionConfig {
    SessionConfig::new(
        "reference.wav".to_string(),
        "assets".to_string(),
        CaptureSettings::new(None, 16_000, LatencyRange { min: 100, max: 200 }),
        AlignmentWeights::default(),
    )
}

#[test]
fn valid_config_passes_validation() {
    assert!(validate_config(&base_config()).is_ok());
}

#[test]
fn config_rejects_missing_reference() {
    let mut config = base_config();
    config.reference_wav = String::new();
    let err = validate_config(&config).unwrap_err();
    assert!(err.message().contains("reference WAV path missing"));
}

#[test]
fn config_rejects_zero_sample_rate() {
    let mut config = base_config();
    config.capture.sample_rate = 0;
    assert!(validate_config(&config).is_err());
}

#[test]
fn config_rejects_bad_latency_windows() {
    let mut config = base_config();
    config.capture.latency_ms = LatencyRange { min: 0, max: 0 };
    assert!(validate_config(&config).is_err());
    config.capture.latency_ms = LatencyRange { min: 200, max: 100 };
    assert!(validate_config(&config).is_err());
}

#[test]
fn config_rejects_zero_budget() {
    let config = base_config().with_latency_budget(0);
    // a zero budget is clamped to one millisecond by the builder
    assert_eq!(config.latency_budget_ms, 1);
    let mut raw = base_config();
    raw.latency_budget_ms = 0;
    assert!(validate_config(&raw).is_err());
}

#[test]
fn control_actions_merge_is_a_union() {
    let mut actions = ControlActions::default();
    actions.merge(ControlActions::from_strip(ControlStripOutput {
        toggle_recording: true,
        replay_reference: false,
    }));
    actions.merge(ControlActions::default());
    assert!(actions.toggle_recording);
    assert!(!actions.replay_reference);
    actions.merge(ControlActions::from_strip(ControlStripOutput {
        toggle_recording: false,
        replay_reference: true,
    }));
    assert!(actions.toggle_recording && actions.replay_reference);
}
