//! Source specifications and rows.

use localdb_core::error::Error;
use localdb_core::json::Json;
use localdb_core::source::{
    build_feed_config_json, feed_config_from_json, find_kind, kind_str, normalize_path_source,
    parse_feed_config_json, parse_source_spec, single_file_source, source_row_to_source,
    FeedConfig, FeedKind, ParsedSourceSpec, PathState, SourceRow, DEFAULT_PATH_EXCLUDES,
    DEFAULT_PATH_INCLUDES, KINDS,
};
use localdb_core::types::{SourceKind, SourceSpec};

fn json(text: &str) -> Json {
    Json::parse(text).expect("valid JSON")
}

fn invalid_request(message: &str) -> Error {
    Error::InvalidRequest {
        message: message.to_string(),
    }
}

#[test]
fn parse_source_spec_handles_url_and_rejects_missing_and_unknown_specs() {
    let url_spec = json(r#"{"url": "https://example.com/page"}"#);
    let missing_root_spec = json(r#"{"include": ["**/*.md"]}"#);
    let missing_url_spec = json(r#"{}"#);
    let string_field_spec = json(r#"{"root": "/tmp/docs", "include": "**/*.md"}"#);

    let parsed_url = parse_source_spec("url", &url_spec).unwrap();
    let missing_root_err = parse_source_spec("path", &missing_root_spec).unwrap_err();
    let missing_url_err = parse_source_spec("url", &missing_url_spec).unwrap_err();
    let unknown_kind_err = parse_source_spec("rss", &missing_url_spec).unwrap_err();
    let string_field_err = parse_source_spec("path", &string_field_spec).unwrap_err();

    assert_eq!(
        parsed_url,
        ParsedSourceSpec {
            kind: SourceKind::Url,
            root: None,
            url: Some("https://example.com/page".to_string()),
            includes: Vec::new(),
            exclude: Vec::new(),
            config_json: None,
        }
    );
    assert_eq!(
        missing_root_err,
        invalid_request("path source requires 'root'")
    );
    assert_eq!(
        missing_url_err,
        invalid_request("url source requires 'url'")
    );
    assert_eq!(
        unknown_kind_err,
        invalid_request("unknown source kind 'rss'")
    );
    assert_eq!(
        string_field_err,
        invalid_request("source spec field 'include' must be a JSON array of strings")
    );
}

fn row(kind: SourceKind) -> SourceRow {
    SourceRow {
        id: "src-1".to_string(),
        store_id: "store-1".to_string(),
        kind,
        root: None,
        url: None,
        includes: Vec::new(),
        exclude: Vec::new(),
        preset: "auto".to_string(),
        refresh: None,
        created_at: "2026-01-01T00:00:00Z".to_string(),
        config_json: None,
    }
}

#[test]
fn source_row_to_source_reconstructs_each_kind() {
    let path_row = SourceRow {
        root: Some("/tmp/docs".to_string()),
        includes: vec!["**/*.md".to_string()],
        exclude: vec!["**/.git".to_string()],
        ..row(SourceKind::Path)
    };
    let url_row = SourceRow {
        url: Some("https://example.com/page".to_string()),
        refresh: Some("24h".to_string()),
        ..row(SourceKind::Url)
    };
    let feed_row = SourceRow {
        url: Some("https://example.com/feed.xml".to_string()),
        refresh: Some("30m".to_string()),
        config_json: Some(r#"{"max_entries": 10, "fetch_full_content": false}"#.to_string()),
        ..row(SourceKind::Feed)
    };

    let path_source = source_row_to_source(&path_row);
    let url_source = source_row_to_source(&url_row);
    let feed_source = source_row_to_source(&feed_row);

    assert_eq!(path_source.id, "src-1");
    assert_eq!(path_source.store_id, "store-1");
    assert_eq!(path_source.kind, SourceKind::Path);
    assert_eq!(path_source.source_preset, "auto");
    assert_eq!(
        path_source.spec,
        SourceSpec::Path {
            root: "/tmp/docs".to_string(),
            includes: vec!["**/*.md".to_string()],
            exclude: vec!["**/.git".to_string()],
        }
    );
    assert_eq!(
        url_source.spec,
        SourceSpec::Url {
            url: "https://example.com/page".to_string(),
            refresh_interval_secs: Some(86_400),
        }
    );
    assert_eq!(
        feed_source.spec,
        SourceSpec::Feed {
            url: "https://example.com/feed.xml".to_string(),
            max_entries: Some(10),
            fetch_full_content: false,
            refresh_interval_secs: Some(1_800),
        }
    );
}

#[test]
fn source_row_to_source_tolerates_invalid_refresh_and_config_json() {
    let url_row = SourceRow {
        url: Some("https://example.com/page".to_string()),
        refresh: Some("soonish".to_string()),
        ..row(SourceKind::Url)
    };
    let feed_row = SourceRow {
        url: Some("https://example.com/feed.xml".to_string()),
        config_json: Some("{not json".to_string()),
        ..row(SourceKind::Feed)
    };

    let url_source = source_row_to_source(&url_row);
    let feed_source = source_row_to_source(&feed_row);

    assert_eq!(
        url_source.spec,
        SourceSpec::Url {
            url: "https://example.com/page".to_string(),
            refresh_interval_secs: None,
        }
    );
    assert_eq!(
        feed_source.spec,
        SourceSpec::Feed {
            url: "https://example.com/feed.xml".to_string(),
            max_entries: None,
            fetch_full_content: true,
            refresh_interval_secs: None,
        }
    );
}

#[test]
fn parse_source_spec_returns_path_fields_when_path_spec_is_valid() {
    let spec = json(r#"{ "root": "/tmp/docs", "include": ["**/*.md"], "exclude": ["**/.git"]}"#);

    let parsed = parse_source_spec("path", &spec).unwrap();

    assert_eq!(
        parsed,
        ParsedSourceSpec {
            kind: SourceKind::Path,
            root: Some("/tmp/docs".to_string()),
            url: None,
            includes: vec!["**/*.md".to_string()],
            exclude: vec!["**/.git".to_string()],
            config_json: None,
        }
    );
}

#[test]
fn parse_source_spec_returns_error_when_array_field_contains_non_string() {
    let spec = json(r#"{"root": "/tmp/docs", "include": [42]}"#);

    let err = parse_source_spec("path", &spec).unwrap_err();

    assert_eq!(
        err,
        invalid_request("source spec field 'include' contains a non-string value")
    );
}

#[test]
fn kinds_registry_kind_str_round_trips_through_parse_source_spec() {
    let minimal_specs = [
        ("path", json(r#"{"root": "/tmp/x"}"#)),
        ("url", json(r#"{"url": "https://example.com/"}"#)),
        ("feed", json(r#"{"url": "https://example.com/feed.xml"}"#)),
    ];
    for kind in KINDS {
        let (_, spec) = minimal_specs
            .iter()
            .find(|(name, _)| *name == kind_str(kind))
            .unwrap_or_else(|| panic!("no minimal spec fixture for {:?}", kind_str(kind)));
        let parsed = parse_source_spec(kind_str(kind), spec).unwrap();
        assert_eq!(parsed.kind, kind);
    }
}

#[test]
fn kinds_registry_has_three_entries_in_dispatch_order_and_kind_def_round_trips() {
    let names: Vec<&str> = KINDS.iter().map(|kind| kind_str(*kind)).collect();
    assert_eq!(names, vec!["path", "url", "feed"]);
    for kind in [SourceKind::Path, SourceKind::Url, SourceKind::Feed] {
        assert_eq!(find_kind(kind_str(kind)), Some(kind));
        assert!(KINDS.iter().any(|k| *k == kind), "{kind:?}");
    }
    assert_eq!(find_kind("rss"), None);
}

fn default_includes() -> Vec<String> {
    DEFAULT_PATH_INCLUDES.iter().map(|v| v.to_string()).collect()
}

fn default_excludes() -> Vec<String> {
    DEFAULT_PATH_EXCLUDES.iter().map(|v| v.to_string()).collect()
}

#[test]
fn normalize_path_source_returns_file_parent_and_filename_when_path_is_file() {
    let (root, includes, exclude) =
        normalize_path_source("/tmp/dir/note.md", PathState::File).unwrap();
    assert_eq!(root, "/tmp/dir");
    assert_eq!(includes, vec!["note.md".to_string()]);
    assert_eq!(exclude, default_excludes());
    let (root, includes, _) = normalize_path_source("note.md", PathState::File).unwrap();
    assert_eq!(root, ".");
    assert_eq!(includes, vec!["note.md".to_string()]);
}

#[test]
fn normalize_path_source_returns_error_when_path_is_missing() {
    let err = normalize_path_source("/tmp/missing.md", PathState::Missing).unwrap_err();
    assert_eq!(err, invalid_request("path '/tmp/missing.md' does not exist"));
}

#[test]
fn normalize_path_source_returns_directory_defaults_when_path_is_directory() {
    let (root, includes, exclude) =
        normalize_path_source("/tmp/dir", PathState::Directory).unwrap();
    assert_eq!(root, "/tmp/dir");
    assert_eq!(includes, default_includes());
    assert_eq!(exclude, default_excludes());
}

#[test]
fn a_single_file_without_directory_or_name() {
    assert_eq!(
        single_file_source(None, None),
        (".".to_string(), vec![String::new()], default_excludes())
    );
}

#[test]
fn feed_settings_come_back_from_their_text() {
    for max_entries in [None, Some(1), Some(50), Some(u32::MAX)] {
        for fetch_full_content in [true, false] {
            let text = build_feed_config_json(max_entries, fetch_full_content);
            assert_eq!(
                parse_feed_config_json(Some(&text)),
                FeedConfig {
                    max_entries,
                    fetch_full_content
                }
            );
        }
    }
    assert_eq!(
        build_feed_config_json(Some(10), false),
        r#"{"fetch_full_content":false,"max_entries":10}"#
    );
    assert_eq!(
        build_feed_config_json(None, true),
        r#"{"fetch_full_content":true,"max_entries":null}"#
    );
}

#[test]
fn stale_feed_settings_give_defaults() {
    for text in [None, Some(""), Some("  \n"), Some("{not json"), Some("[1]"), Some("{}")] {
        assert_eq!(parse_feed_config_json(text), FeedConfig::default());
    }
    assert_eq!(
        parse_feed_config_json(Some(r#" {"max_entries": "x", "fetch_full_content": false} "#)),
        FeedConfig {
            max_entries: None,
            fetch_full_content: false
        }
    );
    assert_eq!(
        feed_config_from_json(&json(r#"{"max_entries": 4294967297}"#)).max_entries,
        Some(1)
    );
    assert_eq!(
        feed_config_from_json(&json(r#"{"max_entries": -3}"#)).max_entries,
        None
    );
}

fn feed_error(text: &str) -> Error {
    parse_source_spec("feed", &json(text)).unwrap_err()
}

#[test]
fn feeds_are_checked_strictly() {
    let parsed = parse_source_spec(
        "feed",
        &json(r#"{"url": "https://example.com/f", "max_entries": 7, "fetch_full_content": false}"#),
    )
    .unwrap();
    assert_eq!(parsed.kind, SourceKind::Feed);
    assert_eq!(parsed.url.as_deref(), Some("https://example.com/f"));
    assert_eq!(
        parsed.config_json.as_deref(),
        Some(r#"{"fetch_full_content":false,"max_entries":7}"#)
    );
    assert_eq!(feed_error("{}"), invalid_request("feed source requires 'url'"));
    for url in ["https://[", "https://", "ftp://example.com/f", "example.com"] {
        assert_eq!(
            feed_error(&format!(r#"{{"url": "{url}"}}"#)),
            invalid_request(&format!(
                "feed source 'url' must be a valid http(s) URL: '{url}'"
            ))
        );
    }
    for value in ["-1", "1.5", "4294967297", "\"7\"", "[1.5,{}]"] {
        assert_eq!(
            feed_error(&format!(
                r#"{{"url": "https://example.com/f", "max_entries": {value}}}"#
            )),
            invalid_request(&format!(
                "feed source 'max_entries' must be a positive integer no greater than \
                 4294967295: {value}"
            ))
        );
    }
    assert_eq!(
        feed_error(r#"{"url": "https://example.com/f", "max_entries": 0}"#),
        invalid_request(
            "invalid max_entries '0': must be greater than zero, or omitted for unbounded"
        )
    );
    assert_eq!(
        feed_error(r#"{"url": "https://example.com/f", "fetch_full_content": "false"}"#),
        invalid_request("feed source 'fetch_full_content' must be a boolean: \"false\"")
    );
}

#[test]
fn a_feed_is_checked_against_the_scheme_given() {
    let spec = json("{}");
    let ok = FeedKind.parse_spec_of(&spec, "x".to_string(), Some("http".to_string()));
    assert_eq!(ok.unwrap().url.as_deref(), Some("x"));
    let err = FeedKind.parse_spec_of(&spec, "x".to_string(), None).unwrap_err();
    assert_eq!(
        err,
        invalid_request("feed source 'url' must be a valid http(s) URL: 'x'")
    );
}

#[test]
fn kinds_are_told_apart_by_their_name() {
    assert_eq!(
        parse_source_spec("rss", &json("{}")).unwrap_err(),
        invalid_request("unknown source kind 'rss'")
    );
    let row = SourceRow {
        id: "s".to_string(),
        store_id: "st".to_string(),
        kind: SourceKind::Path,
        root: None,
        url: None,
        includes: vec![],
        exclude: vec![],
        preset: "prose".to_string(),
        refresh: None,
        created_at: "t".to_string(),
        config_json: None,
    };
    assert_eq!(
        source_row_to_source(&row).spec,
        SourceSpec::Path {
            root: String::new(),
            includes: vec![],
            exclude: vec![]
        }
    );
}
