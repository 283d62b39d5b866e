//! Policy versions.

use localdb_core::config::policy::{canonical_policy_json, compute_policy_version};
use localdb_core::config::schema::{
    ChunkingPolicy, EmbeddingPolicy, HttpConfig, IndexingPolicyConfig, RateLimitConfig, RawConfig,
};
use localdb_core::ids::content_hash;

fn make_default_policy() -> IndexingPolicyConfig {
    IndexingPolicyConfig::default()
}

fn make_policy(model: &str, provider: &str) -> IndexingPolicyConfig {
    IndexingPolicyConfig {
        embedding: EmbeddingPolicy {
            model: model.to_string(),
            provider: provider.to_string(),
        },
        ..Default::default()
    }
}

#[test]
fn same_policy_same_hash() {
    let p1 = make_default_policy();
    let p2 = make_default_policy();
    assert_eq!(
        compute_policy_version(&p1),
        compute_policy_version(&p2),
        "identical policies should produce the same hash"
    );
}

#[test]
fn different_embedding_model_different_hash() {
    let p1 = make_policy("model-a", "local-onnx");
    let p2 = make_policy("model-b", "local-onnx");
    assert_ne!(
        compute_policy_version(&p1),
        compute_policy_version(&p2),
        "different embedding models should produce different policy hashes"
    );
}

#[test]
fn different_embedding_provider_different_hash() {
    let p1 = make_policy("model-a", "local-onnx");
    let p2 = make_policy("model-a", "openai-compatible");
    assert_ne!(
        compute_policy_version(&p1),
        compute_policy_version(&p2),
        "different embedding providers should produce different policy hashes"
    );
}

#[test]
fn different_chunking_preset_overrides_different_hash() {
    let mut overrides = Vec::new();
    overrides.push(("prose".to_string(), "custom".to_string()));

    let p1 = IndexingPolicyConfig::default();
    let p2 = IndexingPolicyConfig {
        chunking: ChunkingPolicy {
            preset_overrides: overrides,
        },
        ..Default::default()
    };
    assert_ne!(
        compute_policy_version(&p1),
        compute_policy_version(&p2),
        "different chunking overrides should produce different policy hashes"
    );
}

#[test]
fn hash_is_deterministic_across_calls() {
    let policy = make_default_policy();
    let hash1 = compute_policy_version(&policy);
    let hash2 = compute_policy_version(&policy);
    let hash3 = compute_policy_version(&policy);
    assert_eq!(hash1, hash2);
    assert_eq!(hash2, hash3);
}

#[test]
fn hash_is_hex_encoded_blake3() {
    let policy = make_default_policy();
    let hash = compute_policy_version(&policy);

    assert_eq!(hash.len(), 64, "expected 64-char hex string, got: {}", hash);
    assert!(
        hash.chars().all(|c| c.is_ascii_hexdigit()),
        "expected all hex digits, got: {}",
        hash
    );
}

#[test]
fn different_parsers_list_different_hash() {
    let p1 = IndexingPolicyConfig {
        parsers: vec!["pdf".to_string(), "html".to_string()],
        ..Default::default()
    };
    let p2 = IndexingPolicyConfig {
        parsers: vec!["markdown".to_string(), "plaintext".to_string()],
        ..Default::default()
    };
    assert_ne!(
        compute_policy_version(&p1),
        compute_policy_version(&p2),
        "different parsers lists should produce different policy hashes"
    );
}

#[test]
fn parsers_order_affects_hash() {
    let p1 = IndexingPolicyConfig {
        parsers: vec!["pdf".to_string(), "html".to_string()],
        ..Default::default()
    };
    let p2 = IndexingPolicyConfig {
        parsers: vec!["html".to_string(), "pdf".to_string()],
        ..Default::default()
    };
    assert_ne!(
        compute_policy_version(&p1),
        compute_policy_version(&p2),
        "parser order is load-bearing and must affect the policy hash"
    );
}

#[test]
fn preset_override_key_order_does_not_affect_hash() {
    let mut overrides1 = Vec::new();
    overrides1.push(("code".to_string(), "custom-code".to_string()));
    overrides1.push(("prose".to_string(), "custom-prose".to_string()));

    let mut overrides2 = Vec::new();
    overrides2.push(("prose".to_string(), "custom-prose".to_string()));
    overrides2.push(("code".to_string(), "custom-code".to_string()));

    let p1 = IndexingPolicyConfig {
        chunking: ChunkingPolicy {
            preset_overrides: overrides1,
        },
        ..Default::default()
    };
    let p2 = IndexingPolicyConfig {
        chunking: ChunkingPolicy {
            preset_overrides: overrides2,
        },
        ..Default::default()
    };
    assert_eq!(
        compute_policy_version(&p1),
        compute_policy_version(&p2),
        "key insertion order should not affect policy hash"
    );
}

#[test]
fn indexing_policy_change_under_shared_http_config_changes_hash() {

    let shared_http = HttpConfig {
        user_agent: Some("custom-agent/1.0".to_string()),
        max_retries: 99,
        rate_limit: RateLimitConfig {
            requests_per_second: 42,
            burst: 100,
        },
    };

    let mut base = RawConfig {
        http: shared_http.clone(),
        ..Default::default()
    };
    base.defaults.indexing.embedding.model = "model-a".to_string();

    let mut changed = RawConfig {
        http: shared_http,
        ..Default::default()
    };
    changed.defaults.indexing.embedding.model = "model-b".to_string();

    assert_eq!(
        base.http, changed.http,
        "test fixture sanity: the two configs must share the same http block"
    );
    assert_ne!(
        compute_policy_version(&base.defaults.indexing),
        compute_policy_version(&changed.defaults.indexing),
        "a changed embedding.model must change the policy_version hash, \
             even under an unchanged (and non-default) shared http: block"
    );
}

#[test]
fn canonical_text_has_its_keys_in_order() {
    let mut policy = IndexingPolicyConfig::default();
    policy.chunking.preset_overrides = vec![
        ("prose".to_string(), "old".to_string()),
        ("code".to_string(), "c".to_string()),
        ("prose".to_string(), "p".to_string()),
    ];
    policy.parsers = vec!["pdf".to_string(), "html".to_string()];
    let text = canonical_policy_json(&policy);
    assert_eq!(
        text,
        "{\"chunking\":{\"algorithm\":\"textsplitter-md-v6\",\
         \"preset_overrides\":{\"code\":\"c\",\"prose\":\"p\"}},\
         \"embedding\":{\"model\":\"pplx-embed-context-v1-0.6b\",\"provider\":\"local\"},\
         \"parsers\":[\"pdf\",\"html\"]}"
    );
    assert_eq!(compute_policy_version(&policy), content_hash(&text));
}
