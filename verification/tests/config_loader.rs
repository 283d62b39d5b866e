//! Durations, checking a configuration, and where things are kept.

use localdb_core::config::loader::{
    accept_config, expand_path, join_path, legacy_paths, refuse_legacy_layout,
    resolve_config_path, resolve_paths, validate_config, LoadOptions, PlatformPaths,
};
use localdb_core::config::policy::compute_policy_version;
use localdb_core::config::schema::{ProviderConfig, RawConfig};
use localdb_core::duration::{parse_duration, validate_refresh_interval};
use localdb_core::error::Error;

#[test]
fn parse_duration_hours() {
    assert_eq!(parse_duration("24h").unwrap(), 24 * 3600);
    assert_eq!(parse_duration("1h").unwrap(), 3600);
}

#[test]
fn parse_duration_minutes() {
    assert_eq!(parse_duration("30m").unwrap(), 30 * 60);
    assert_eq!(parse_duration("1m").unwrap(), 60);
}

#[test]
fn parse_duration_seconds() {
    assert_eq!(parse_duration("90s").unwrap(), 90);
    assert_eq!(parse_duration("1s").unwrap(), 1);
}

#[test]
fn parse_duration_days() {
    assert_eq!(parse_duration("7d").unwrap(), 7 * 86400);
}

#[test]
fn parse_duration_rejects_invalid() {
    assert!(parse_duration("not-a-duration").is_err());
    assert!(parse_duration("1x").is_err());
    assert!(parse_duration("").is_err());
    assert!(parse_duration("abc").is_err());
}

#[test]
fn parse_duration_rejects_zero() {
    assert!(parse_duration("0h").is_err());
    assert!(parse_duration("0m").is_err());
}

#[test]
fn duration_complaints() {
    assert_eq!(parse_duration("").unwrap_err(), "duration string is empty");
    assert_eq!(
        parse_duration("5x").unwrap_err(),
        "invalid duration '5x': expected a number followed by 'd', 'h', 'm', or 's' \
         (e.g. '24h', '30m', '90s')"
    );
    assert_eq!(
        parse_duration("-5m").unwrap_err(),
        "invalid duration '-5m': '-5' is not a valid number"
    );
    assert_eq!(
        parse_duration("h").unwrap_err(),
        "invalid duration 'h': '' is not a valid number"
    );
    assert_eq!(
        parse_duration("+h").unwrap_err(),
        "invalid duration '+h': '+' is not a valid number"
    );
    assert_eq!(
        parse_duration("18446744073709551616s").unwrap_err(),
        "invalid duration '18446744073709551616s': '18446744073709551616' is not a valid number"
    );
    assert_eq!(
        parse_duration("0s").unwrap_err(),
        "invalid duration '0s': duration must be greater than zero"
    );
    assert_eq!(parse_duration("+5m"), Ok(300));
    assert_eq!(parse_duration("18446744073709551615s"), Ok(u64::MAX));
}

#[test]
fn refresh_intervals() {
    assert_eq!(validate_refresh_interval("24h").unwrap(), Some(86_400));
    assert!(validate_refresh_interval("soonish").is_err());
    assert_eq!(
        validate_refresh_interval("18446744073709551615h").unwrap_err(),
        Error::InvalidRequest {
            message: "invalid duration '18446744073709551615h': duration is too long".to_string()
        }
    );
}

fn complaint(config: RawConfig) -> String {
    match accept_config(Ok(config)).unwrap_err() {
        Error::InvalidConfig { message } => message,
        other => panic!("expected InvalidConfig, got {other:?}"),
    }
}

#[test]
fn load_valid_minimal_config() {
    let cfg = accept_config(Ok(RawConfig::default())).unwrap();
    assert_eq!(cfg, RawConfig::default());
    assert!(validate_config(&cfg).is_ok());
}

#[test]
fn load_rejects_unknown_version() {
    let message = complaint(RawConfig {
        version: 99,
        ..Default::default()
    });
    assert_eq!(
        message,
        "unsupported config version 99; only version 1 is supported. \
         Hint: add `version: 1` at the top of your config file."
    );
}

#[test]
fn server_job_workers_zero_rejected() {
    let mut config = RawConfig::default();
    config.server.job_workers = 0;
    assert_eq!(
        complaint(config),
        "server.job_workers must be greater than zero"
    );
}

#[test]
fn http_rate_limit_requests_per_second_zero_rejected() {
    let mut config = RawConfig::default();
    config.http.rate_limit.requests_per_second = 0;
    assert_eq!(
        complaint(config),
        "http.rate_limit.requests_per_second must be greater than zero"
    );
}

#[test]
fn http_rate_limit_burst_zero_rejected() {
    let mut config = RawConfig::default();
    config.http.rate_limit.burst = 0;
    assert_eq!(
        complaint(config),
        "http.rate_limit.burst must be greater than zero"
    );
}

#[test]
fn load_rejects_control_character_in_user_agent() {
    let mut config = RawConfig::default();
    config.http.user_agent = Some("bad\nagent".to_string());
    let err = accept_config(Ok(config)).unwrap_err();
    assert_eq!(err.code(), "invalid_config");
    assert_eq!(
        err.raw_message(),
        Some("http.user_agent \"bad\\nagent\" is not a valid HTTP header value")
    );
}

#[test]
fn load_accepts_valid_user_agent_including_obs_text() {
    for ua in ["localdb/9.9 (+https://example.test)", "café-agent/1.0", "tab\there", ""] {
        let mut config = RawConfig::default();
        config.http.user_agent = Some(ua.to_string());
        let cfg = accept_config(Ok(config)).unwrap();
        assert_eq!(cfg.http.user_agent.as_deref(), Some(ua));
    }
    for c in 0u8..128 {
        let mut config = RawConfig::default();
        config.http.user_agent = Some((c as char).to_string());
        let valid = (c >= 32 && c != 127) || c == 9;
        assert_eq!(accept_config(Ok(config)).is_ok(), valid, "{c}");
    }
}

#[test]
fn load_rejects_unversioned_with_hint() {
    let words = "missing field `version`".to_string();
    assert_eq!(
        accept_config(Err(words)).unwrap_err(),
        Error::InvalidConfig {
            message: "missing field `version`. \
                      Hint: add `version: 1` at the top of your config file."
                .to_string()
        }
    );
    for words in ["unknown field `servre`", "missing field `name`", "bad version"] {
        assert_eq!(
            accept_config(Err(words.to_string())).unwrap_err(),
            Error::InvalidConfig {
                message: words.to_string()
            }
        );
    }
}

#[test]
fn paths_are_joined_as_the_platform_does() {
    for (base, name) in [
        ("/a", "b"),
        ("/a/", "b"),
        ("", "b"),
        ("/", "b"),
        ("a", "/b"),
        ("a", ""),
    ] {
        assert_eq!(
            join_path(base, name),
            std::path::Path::new(base).join(name).to_str().unwrap(),
            "{base} {name}"
        );
    }
}

#[test]
fn expand_path_expands_tilde() {
    assert_eq!(
        expand_path("~/Documents/notes", Some("/home/u")),
        "/home/u/Documents/notes"
    );
    assert_eq!(expand_path("~/x", None), "~/x");
    assert_eq!(expand_path("~x", Some("/home/u")), "~x");
}

#[test]
fn expand_path_passes_through_absolute_path() {
    assert_eq!(expand_path("/absolute/path", Some("/home/u")), "/absolute/path");
}

fn platform() -> PlatformPaths {
    PlatformPaths {
        config_file: "/p/config.yaml".to_string(),
        data_dir: "/p/data".to_string(),
        models_dir: "/p/models".to_string(),
        logs_dir: "/p/logs".to_string(),
    }
}

#[test]
fn config_files_are_looked_for_in_order() {
    let p = platform();
    let given = LoadOptions {
        config_path: Some("/given.yaml".to_string()),
        ..Default::default()
    };
    let none = LoadOptions::default();
    assert_eq!(
        resolve_config_path(&given, Some("/env.yaml"), Some(&p)).unwrap(),
        "/given.yaml"
    );
    assert_eq!(
        resolve_config_path(&none, Some("/env.yaml"), Some(&p)).unwrap(),
        "/env.yaml"
    );
    assert_eq!(
        resolve_config_path(&none, None, Some(&p)).unwrap(),
        "/p/config.yaml"
    );
    assert_eq!(
        resolve_config_path(&none, None, None).unwrap_err(),
        Error::InvalidConfig {
            message: "cannot determine platform config path (no home directory?)".to_string()
        }
    );
}

#[test]
fn directories_are_overridden_in_order() {
    let p = platform();
    let mut config = RawConfig::default();
    config.paths.data = Some("~/d".to_string());
    config.paths.models = Some("/m".to_string());
    let options = LoadOptions {
        models_dir: Some("/given".to_string()),
        ..Default::default()
    };
    let paths = resolve_paths(&config, "/c.yaml", &options, Some(&p), Some("/home/u")).unwrap();
    assert_eq!(paths.config_file, "/c.yaml");
    assert_eq!(paths.data_dir, "/home/u/d");
    assert_eq!(paths.models_dir, "/given");
    assert_eq!(paths.logs_dir, "/p/logs");
    assert_eq!(paths.socket_path(), "/home/u/d/daemon.sock");
    assert_eq!(paths.url_path(), "/home/u/d/daemon.url");
    assert_eq!(paths.db_path(), "/home/u/d/localdb.db");
    assert_eq!(
        resolve_paths(&config, "/c.yaml", &options, None, None).unwrap_err(),
        Error::InvalidConfig {
            message: "cannot determine platform paths".to_string()
        }
    );
}

#[test]
fn refuses_to_open_with_legacy_runtime_state_db() {
    let (db, stores) = legacy_paths("/d");
    assert_eq!((db.as_str(), stores.as_str()), ("/d/runtime-state.db", "/d/stores"));
    let expected = "data dir '/d' contains a legacy layout from before v0.1.0 \
                    (/d/runtime-state.db, /d/stores). There is no migration path; remove the \
                    legacy files and re-add stores with `localdb store add` and \
                    `localdb source add`.";
    for (a, b) in [(true, false), (false, true), (true, true)] {
        assert_eq!(
            refuse_legacy_layout("/d", a, b).unwrap_err().raw_message(),
            Some(expected)
        );
    }
    assert!(refuse_legacy_layout("/d", false, false).is_ok());
}

#[test]
fn refuses_to_open_with_legacy_stores_dir() {
    match refuse_legacy_layout("/d", false, true) {
        Err(Error::InvalidConfig { message }) => {
            assert!(message.contains("legacy") || message.contains("stores"));
        }
        other => panic!("expected InvalidConfig, got: {other:?}"),
    }
}

fn config_with_parsers(ids: &[&str]) -> RawConfig {
    let mut config = RawConfig::default();
    config.defaults.indexing.parsers = ids.iter().map(|s| s.to_string()).collect();
    config
}

#[test]
fn unknown_parser_ids_are_rejected() {
    assert_eq!(
        validate_config(&config_with_parsers(&["no-such-parser"])).unwrap_err(),
        Error::InvalidConfig {
            message: "defaults.indexing.parsers contains the unknown parser id 'no-such-parser'"
                .to_string()
        }
    );
    let err = accept_config(Ok(config_with_parsers(&["pdf", "PDF", "x"]))).unwrap_err();
    assert!(err.to_string().contains("'PDF'"));
    assert!(validate_config(&config_with_parsers(&["plaintext", "html", "html"])).is_ok());
}

#[test]
fn an_empty_list_of_parsers_is_filled_in() {
    let accepted = accept_config(Ok(config_with_parsers(&[]))).unwrap();
    assert_eq!(accepted, RawConfig::default());
    assert_eq!(
        compute_policy_version(&accepted.defaults.indexing),
        compute_policy_version(&RawConfig::default().defaults.indexing)
    );
    let own = config_with_parsers(&["html", "pdf"]);
    assert_eq!(accept_config(Ok(own.clone())).unwrap(), own);
}

#[test]
fn server_job_workers_absent_defaults_to_one() {
    let cfg = accept_config(Ok(RawConfig::default())).unwrap();
    assert_eq!(cfg.server.job_workers, 1);
}

#[test]
fn server_job_workers_set_is_respected() {
    let mut config = RawConfig::default();
    config.server.job_workers = 4;
    let cfg = accept_config(Ok(config)).unwrap();
    assert_eq!(cfg.server.job_workers, 4);
}

#[test]
fn http_rate_limit_valid_values_accepted() {
    let mut config = RawConfig::default();
    config.http.rate_limit.requests_per_second = 2;
    config.http.rate_limit.burst = 8;
    assert!(validate_config(&config).is_ok());
    let cfg = accept_config(Ok(config)).unwrap();
    assert_eq!(cfg.http.rate_limit.requests_per_second, 2);
    assert_eq!(cfg.http.rate_limit.burst, 8);
}

#[test]
fn load_valid_full_config() {
    let mut config = RawConfig::default();
    config.server.bind = "127.0.0.1".to_string();
    config.server.port = 7700;
    config.defaults.indexing.embedding.model = "pplx-embed-context-v1-0.6b".to_string();
    config.defaults.indexing.embedding.provider = "local-onnx".to_string();
    config.providers = vec![ProviderConfig {
        name: "my-ollama".to_string(),
        kind: "openai-compatible".to_string(),
        base_url: Some("http://localhost:11434/v1".to_string()),
        api_key_env: Some("OLLAMA_KEY".to_string()),
    }];
    let cfg = accept_config(Ok(config)).unwrap();
    assert_eq!(cfg.version, 1);
    assert_eq!(cfg.providers.len(), 1);
    assert_eq!(cfg.providers[0].name, "my-ollama");
}
