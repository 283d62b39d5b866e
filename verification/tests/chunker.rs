//! Chunker configurations.

use localdb_core::chunker::{
    effective_chunker_config, file_extension, preset_for, scale_to_chars, ChunkerConfig,
};

#[test]
fn scale_to_chars_scales_prose_budget_by_four() {
    let cfg = ChunkerConfig {
        preset: "prose".to_string(),
        target_tokens: Some(256),
        overlap_tokens: Some(0),
        window_turns: None,
        stride_turns: None,
    };
    let scaled = scale_to_chars(&cfg);
    assert_eq!(scaled.preset, "prose");
    assert_eq!(
        scaled.resolved_target_tokens(),
        256 * 4,
        "prose target should be scaled ×4 for CharSizer"
    );
    assert_eq!(
        scaled.resolved_overlap_tokens(),
        0,
        "prose overlap should be scaled ×4 for CharSizer (0 × 4 = 0)"
    );
}

#[test]
fn scale_to_chars_does_not_change_code_preset() {
    let cfg = ChunkerConfig {
        preset: "code".to_string(),
        target_tokens: Some(3000),
        overlap_tokens: Some(0),
        window_turns: None,
        stride_turns: None,
    };
    let scaled = scale_to_chars(&cfg);
    assert_eq!(scaled.preset, "code");
    assert_eq!(
        scaled.resolved_target_tokens(),
        3000,
        "code preset must not be scaled"
    );
    assert_eq!(
        scaled.resolved_overlap_tokens(),
        0,
        "code overlap must not be scaled"
    );
}

#[test]
fn scale_to_chars_uses_preset_defaults_when_none() {
    let cfg = ChunkerConfig {
        preset: "prose".to_string(),
        target_tokens: None,
        overlap_tokens: None,
        window_turns: None,
        stride_turns: None,
    };
    let scaled = scale_to_chars(&cfg);

    assert_eq!(scaled.resolved_target_tokens(), 256 * 4);
    assert_eq!(scaled.resolved_overlap_tokens(), 0);
}

#[test]
fn preset_gate_explicit_code_source_wins_over_md_extension() {
    let base = ChunkerConfig::code();
    let cfg = effective_chunker_config("code", &base, Some("notes.md"), None);
    assert_eq!(cfg.preset, "code");
}

#[test]
fn preset_gate_default_prose_source_auto_routes_rs_file_to_code() {
    let base = ChunkerConfig::prose();
    let cfg = effective_chunker_config("prose", &base, Some("main.rs"), None);
    assert_eq!(cfg.preset, "code");
}

#[test]
fn preset_gate_messages_source_wins_regardless_of_filename() {
    let base = ChunkerConfig::messages();
    let cfg = effective_chunker_config("messages", &base, Some("transcript.md"), None);
    assert_eq!(cfg.preset, "messages");
    assert_eq!(cfg.resolved_window_turns(), 6);
}

#[test]
fn extensions_decide_before_mime_types() {
    assert_eq!(preset_for(Some("main.rs"), None), "code");
    assert_eq!(preset_for(Some("notes.md"), Some("text/x-rust")), "prose");
    assert_eq!(preset_for(Some("noext"), Some("text/x-rust")), "code");
    assert_eq!(preset_for(None, Some("text/plain")), "prose");
    assert_eq!(preset_for(None, None), "prose");
    assert_eq!(file_extension("a.tar.gz").as_deref(), Some("gz"));
    assert_eq!(file_extension("plain"), None);
}

#[test]
fn a_prose_source_keeps_its_own_settings_for_prose() {
    let mut base = ChunkerConfig::prose();
    base.target_tokens = Some(100);
    let cfg = effective_chunker_config("prose", &base, Some("notes.md"), None);
    assert_eq!(cfg, base);
}
