//! The default configuration file.

use localdb_core::config::jsonschema::SCHEMA_URL;
use localdb_core::config::template::{render_default_config_template, TEMPLATE};

#[test]
fn template_first_line_is_yaml_language_server_modeline() {
    let rendered = render_default_config_template();
    let first_line = rendered.lines().next().expect("template is non-empty");
    assert_eq!(
        first_line,
        format!("# yaml-language-server: $schema={SCHEMA_URL}")
    );
}

#[test]
fn template_schema_url_matches_generator() {
    let rendered = render_default_config_template();
    assert!(
        !rendered.contains("{{SCHEMA_URL}}"),
        "rendered template must not contain the raw placeholder"
    );

    let occurrences = rendered.matches(SCHEMA_URL).count();
    assert_eq!(
        occurrences, 2,
        "SCHEMA_URL must appear exactly twice (modeline + `$schema:` key)"
    );
}

#[test]
fn template_contains_literal_dollar_schema_key() {
    let rendered = render_default_config_template();
    assert!(
        rendered.lines().any(|line| line.starts_with("$schema: ")),
        "rendered template must contain a `$schema: ` key line"
    );
}

#[test]
fn template_mentions_every_key() {
    for key in [
        "version", "$schema", "server", "bind", "port", "job_workers", "paths", "data", "models",
        "logs", "defaults", "indexing", "chunking", "preset_overrides", "embedding", "model",
        "provider", "parsers", "providers", "name", "kind", "base_url", "api_key_env", "http",
        "user_agent", "max_retries", "rate_limit", "requests_per_second", "burst",
    ] {
        assert!(TEMPLATE.contains(key), "{key}");
    }
}

#[test]
fn rendering_is_a_plain_replacement() {
    assert_eq!(
        render_default_config_template(),
        TEMPLATE.replace("{{SCHEMA_URL}}", SCHEMA_URL)
    );
}
