use flowalyzer::transcription::format_preview_text;
use flowalyzer::transcription::TranscriptionSettings;

#[test]
fn preview_text_leaves_short_strings() {
    let preview = format_preview_text("Hello world");
    assert_eq!(preview, "Hello world");
}

#[test]
fn preview_text_handles_newlines() {
    let preview = format_preview_text("Hello\nWorld");
    assert_eq!(preview, "Hello World");
}

#[test]
fn preview_text_truncates_utf8_safely() {
    let input = "مرحبا".repeat(12); // 12 * 5 = 60 chars
    let preview = format_preview_text(&input);
    assert!(preview.ends_with('…'));
    assert!(preview.chars().count() <= 41);
}

#[test]
fn preview_text_trims_whitespace() {
    assert_eq!(format_preview_text("  spaced out \t"), "spaced out");
    assert_eq!(format_preview_text("   \t  "), "");
}

#[test]
fn english_only_model_is_detected_from_path() {
    assert!(TranscriptionSettings::path_is_english_only("models/ggml-base.en.bin"));
    assert!(!TranscriptionSettings::path_is_english_only("models/ggml-base.bin"));
    assert!(!TranscriptionSettings::path_is_english_only("en.bin"));
}

#[test]
fn model_defaults_pin_english_for_english_only_models() {
    let mut settings = TranscriptionSettings {
        model_path: "models/ggml-base.en.bin".to_string(),
        language: None,
        detect_language: true,
    };
    settings.apply_model_defaults();
    assert_eq!(settings.language.as_deref(), Some("en"));
    assert!(!settings.detect_language);

    let mut multilingual = TranscriptionSettings {
        model_path: "models/ggml-base.bin".to_string(),
        language: None,
        detect_language: true,
    };
    multilingual.apply_model_defaults();
    assert_eq!(multilingual.language, None);
    assert!(multilingual.detect_language);
}
