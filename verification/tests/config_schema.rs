//! Defaults of the configuration.

use localdb_core::config::schema::{
    default_parser_ids, EmbeddingPolicy, HttpConfig, RateLimitConfig, RawConfig, ServerConfig,
};

#[test]
fn http_config_defaults() {
    let h = HttpConfig::default();
    assert_eq!(h.user_agent, None);
    assert_eq!(h.max_retries, 3);
    assert_eq!(h.rate_limit, RateLimitConfig::default());
}

#[test]
fn rate_limit_config_defaults() {
    let r = RateLimitConfig::default();
    assert_eq!(r.requests_per_second, 1);
    assert_eq!(r.burst, 4);
}

#[test]
fn embedding_policy_defaults() {
    let p = EmbeddingPolicy::default();
    assert_eq!(p.model, "pplx-embed-context-v1-0.6b");
    assert_eq!(p.provider, "local");
}

#[test]
fn server_config_defaults() {
    let s = ServerConfig::default();
    assert_eq!(s.bind, "127.0.0.1");
    assert_eq!(s.port, 7700);
    assert_eq!(s.job_workers, 1);
}

#[test]
fn default_parser_ids_match_extract_registry() {
    assert_eq!(
        default_parser_ids(),
        vec!["pdf", "epub", "office", "html", "markdown", "plaintext"],
        "the parsers are tried in this order"
    );
}

#[test]
fn defaults_of_a_whole_configuration() {
    let cfg = RawConfig::default();
    assert_eq!(cfg.version, 1);
    assert_eq!(cfg.server, ServerConfig::default());
    assert!(cfg.providers.is_empty());
    assert_eq!(cfg.schema, None);
    assert_eq!(cfg.http, HttpConfig::default());
    assert_eq!(cfg.defaults.indexing.parsers, default_parser_ids());
}
