use flowalyzer::pronunciation::metrics::MetricCalculator;
use flowalyzer::pronunciation::{AlignedPhoneme, AlignmentReport};

fn make_report(phonemes: Vec<AlignedPhoneme>, confidence: i64) -> AlignmentReport {
    let similarity_band = phonemes.iter().map(|p| p.similarity).collect();
    AlignmentReport {
        phonemes,
        total_duration_ms: 120,
        reference_path_cost: 500,
        learner_path_cost: 500,
        global_time_offset_mms: 0,
        confidence,
        reference_energy: vec![800, 700, 750],
        learner_energy: vec![800, 700, 750],
        similarity_band,
        contour_band: Vec::new(),
        reference_pitch: Vec::new(),
        learner_pitch: Vec::new(),
    }
}

fn phoneme(symbol: &str, delta_mms: i64, variance: i64, similarity: i64) -> AlignedPhoneme {
    AlignedPhoneme {
        symbol: symbol.to_string(),
        reference_start_ms: 0,
        reference_end_ms: 40,
        learner_start_ms: 0,
        learner_end_ms: 40,
        timing_delta_mms: delta_mms,
        similarity,
        articulation_variance: variance,
        contour_similarity: 0,
    }
}

#[test]
fn metrics_scoring_balanced_alignment() {
    let phonemes = vec![
        phoneme("T", 10_000, 50, 900),
        phoneme("AY", -12_000, 80, 920),
        phoneme("M", 6_000, 40, 880),
    ];
    let report = make_report(phonemes, 850);
    let scores = MetricCalculator::new().score(&report).unwrap();

    assert!((scores.timing - 900).abs() <= 50);
    assert!((scores.articulation - 920).abs() <= 50);
    assert!((scores.intonation - 1000).abs() <= 50);
    assert!((scores.overall - 890).abs() <= 50);
    assert_eq!(scores.per_phoneme.len(), 3);
    assert!(scores
        .per_phoneme
        .iter()
        .all(|score| score.timing <= 1000 && score.intonation <= 1000));
}

#[test]
fn metrics_penalize_large_deviation() {
    let phonemes = vec![
        phoneme("T", 180_000, 200, 500),
        phoneme("AY", -150_000, 400, 450),
    ];
    let mut report = make_report(phonemes, 400);
    report.reference_energy = vec![950, 900, 880];
    report.learner_energy = vec![200, 250, 220];
    let scores = MetricCalculator::new().score(&report).unwrap();

    assert!(scores.timing < 200);
    assert!(scores.articulation <= 800);
    assert!(scores.intonation < 600);
    assert!(scores.overall < 500);
}

#[test]
fn metrics_handle_empty_alignment() {
    let report = make_report(Vec::new(), 700);
    let scores = MetricCalculator::new().score(&report).unwrap();

    assert_eq!(scores.overall, 700);
    assert_eq!(scores.timing, 1000);
    assert_eq!(scores.articulation, 1000);
    assert_eq!(scores.intonation, 1000);
    assert!(scores.per_phoneme.is_empty());
}

#[test]
fn metrics_clamp_out_of_range_confidence() {
    let report = make_report(Vec::new(), 1500);
    let scores = MetricCalculator::new().score(&report).unwrap();
    assert_eq!(scores.overall, 1000);

    let negative = make_report(Vec::new(), -10);
    let scores = MetricCalculator::new().score(&negative).unwrap();
    assert_eq!(scores.overall, 0);
}

#[test]
fn metrics_exact_timing_band() {
    // 60 ms of delta at a 120 ms tolerance costs exactly half the band
    let phonemes = vec![phoneme("T", 60_000, 0, 1000)];
    let report = make_report(phonemes, 1000);
    let scores = MetricCalculator::new().score(&report).unwrap();
    assert_eq!(scores.timing, 500);
    assert_eq!(scores.per_phoneme[0].timing, 500);
    assert_eq!(scores.per_phoneme[0].articulation, 1000);
}
