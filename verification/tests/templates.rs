use flowalyzer::pronunciation::alignment::dtw::{align_templates, frames_to_ms};
use flowalyzer::pronunciation::alignment::templates::{build_templates, partition_frames};
use flowalyzer::pronunciation::PronunciationFeatures;

fn features_from(energies: &[i64]) -> PronunciationFeatures {
    let n = energies.len();
    PronunciationFeatures {
        frame_count: n,
        mel_bands: 1,
        mel_spectrogram: energies.iter().map(|&e| vec![e / 2]).collect(),
        spectral_flux: energies.iter().map(|_| 0).collect(),
        energy: energies.to_vec(),
        mfcc: energies.iter().map(|&e| vec![e]).collect(),
        deltas: energies.iter().map(|_| vec![0]).collect(),
        delta_deltas: energies.iter().map(|_| vec![0]).collect(),
        pitch_contour: energies.iter().map(|_| 0).collect(),
    }
}

#[test]
fn partition_spreads_the_remainder_forward() {
    let segments = partition_frames(7, 3);
    assert_eq!(segments, vec![(0, 3), (3, 5), (5, 7)]);
    let even = partition_frames(6, 3);
    assert_eq!(even, vec![(0, 2), (2, 4), (4, 6)]);
}

#[test]
fn templates_summarize_their_segments() {
    // three plateaus of distinct energy
    let reference = features_from(&[100, 100, 500, 500, 500, 900, 900]);
    let phonemes: Vec<String> = ["AA", "BB", "CC"].iter().map(|s| s.to_string()).collect();
    let templates = build_templates(&reference, &phonemes).unwrap();
    assert_eq!(templates.len(), 3);
    assert_eq!(templates[0].symbol, "AA");
    assert_eq!((templates[0].start_frame, templates[0].end_frame), (0, 3));
    // frames 0..3 hold energies 100, 100, 500
    assert_eq!(templates[0].average_energy, (100 + 100 + 500) / 3);
    assert_eq!(templates[1].centroid, vec![500]);
    assert_eq!((templates[2].start_frame, templates[2].end_frame), (5, 7));
}

#[test]
fn template_building_rejects_bad_inputs() {
    let reference = features_from(&[100, 200]);
    let none: Vec<String> = Vec::new();
    assert!(build_templates(&reference, &none).is_err());
    let too_many: Vec<String> = ["A", "B", "C"].iter().map(|s| s.to_string()).collect();
    assert!(build_templates(&reference, &too_many).is_err());
}

#[test]
fn dtw_alignment_segments_cover_the_learner_in_order() {
    // the learner repeats the reference plateaus with different dwell times
    let reference = features_from(&[100, 100, 500, 500, 900, 900]);
    let phonemes: Vec<String> = ["AA", "BB", "CC"].iter().map(|s| s.to_string()).collect();
    let templates = build_templates(&reference, &phonemes).unwrap();
    let learner = features_from(&[100, 100, 500, 500, 500, 900, 900]);
    let alignment = align_templates(&templates, &learner).unwrap();

    assert_eq!(alignment.segments.len(), phonemes.len());
    let first = &alignment.segments[0];
    assert_eq!(first.symbol, "AA");
    assert_eq!(first.learner_start_frame, 0);
    let second = &alignment.segments[1];
    assert_eq!(second.learner_start_frame, first.learner_end_frame);
    let third = &alignment.segments[2];
    assert_eq!(third.learner_start_frame, second.learner_end_frame);
    assert_eq!(third.learner_end_frame, learner.frame_count);
    assert!(alignment.total_cost >= 0);
    assert!(alignment
        .segments
        .iter()
        .all(|seg| seg.similarity <= 1000 && seg.similarity > 0));

    let (start_ms, end_ms) = frames_to_ms(second.learner_start_frame, second.learner_end_frame);
    assert_eq!(start_ms, second.learner_start_frame as u64 * 10);
    assert_eq!(end_ms, second.learner_end_frame as u64 * 10);
}

#[test]
fn dtw_rejects_more_templates_than_frames() {
    let reference = features_from(&[100, 500, 900]);
    let phonemes: Vec<String> = ["A", "B", "C"].iter().map(|s| s.to_string()).collect();
    let templates = build_templates(&reference, &phonemes).unwrap();
    let learner = features_from(&[100, 500]);
    assert!(align_templates(&templates, &learner).is_err());
}
