//! The published schema.

use localdb_core::config::jsonschema::{
    generate_router_schema, rewrite_defs_refs, versioned_subschema, SCHEMA_URL,
};
use localdb_core::json::Json;

fn v1() -> Json {
    Json::parse(
        r##"{
            "$schema": "https://json-schema.org/draft/2020-12/schema",
            "title": "RawConfig",
            "type": "object",
            "properties": {
                "$schema": {"type": "string"},
                "server": {"$ref": "#/$defs/ServerConfig"},
                "list": [{"$ref": "#/$defs/HttpConfig"}, 1, null]
            },
            "$defs": {
                "ServerConfig": {"type": "object", "minimum": 1},
                "HttpConfig": {
                    "properties": {"rate_limit": {"$ref": "#/$defs/RateLimitConfig"}}
                },
                "RateLimitConfig": {"type": "object"}
            }
        }"##,
    )
    .unwrap()
}

#[test]
fn router_schema_has_expected_envelope_keys() {
    let schema = generate_router_schema(v1());
    let text = |key: &str| schema.get(key).and_then(|v| v.as_str());
    assert_eq!(
        text("$schema"),
        Some("https://json-schema.org/draft/2020-12/schema")
    );
    assert_eq!(text("$id"), Some(SCHEMA_URL));
    assert!(schema.get("if").is_some());
    assert!(schema.get("then").is_some());
    assert_eq!(schema.get("else").and_then(|v| v.as_bool()), Some(false));
    assert!(schema.get("$defs").and_then(|d| d.get("v1")).is_some());
}

#[test]
fn router_schema_v1_admits_dollar_schema_property() {
    let schema = generate_router_schema(v1());
    let v1 = schema.get("$defs").unwrap().get("v1").unwrap();
    assert!(v1.get("properties").unwrap().get("$schema").is_some());
    assert!(v1.get("$schema").is_none());
    assert!(v1.get("$defs").is_none());
    assert_eq!(v1.get("title").and_then(|t| t.as_str()), Some("RawConfig"));
}

fn collect_refs(value: &serde_json::Value, out: &mut Vec<String>) {
    match value {
        serde_json::Value::Object(map) => {
            for (k, v) in map {
                if k == "$ref" {
                    if let serde_json::Value::String(s) = v {
                        out.push(s.clone());
                    }
                }
                collect_refs(v, out);
            }
        }
        serde_json::Value::Array(arr) => {
            for v in arr {
                collect_refs(v, out);
            }
        }
        _ => {}
    }
}

#[test]
fn router_schema_nested_refs_resolve() {
    let schema = generate_router_schema(v1()).to_value();
    let defs = schema["$defs"].as_object().unwrap();
    let mut refs = Vec::new();
    collect_refs(&schema, &mut refs);
    assert_eq!(refs.len(), 4);
    for r in refs {
        let name = r.strip_prefix("#/$defs/").unwrap();
        assert!(defs.contains_key(name), "dangling $ref {r}");
    }
}

#[test]
fn definitions_are_renamed_and_rewritten() {
    let defs = Json::Object(versioned_subschema(v1(), "v7"));
    for key in ["v7", "v7_ServerConfig", "v7_HttpConfig", "v7_RateLimitConfig"] {
        assert!(defs.get(key).is_some(), "{key}");
    }
    assert_eq!(
        defs.get("v7_HttpConfig").unwrap().render(),
        r##"{"properties":{"rate_limit":{"$ref":"#/$defs/v7_RateLimitConfig"}}}"##
    );
    let bare = Json::Object(versioned_subschema(Json::parse("{}").unwrap(), "v1"));
    assert_eq!(bare.render(), r#"{"v1":{}}"#);
}

#[test]
fn only_references_to_definitions_are_rewritten() {
    let value = Json::parse(r##"["#/$defs/A", "x#/$defs/A", "#/$defs/", 5, true]"##).unwrap();
    assert_eq!(
        rewrite_defs_refs(value, "p").render(),
        r##"["#/$defs/p_A","x#/$defs/A","#/$defs/p_",5,true]"##
    );
}

#[test]
fn the_router_describes_itself() {
    let schema = generate_router_schema(v1());
    assert_eq!(
        schema.get("description").and_then(|d| d.as_str()),
        Some(
            "config.yaml for localdb. Dispatches on the top-level `version` field to a \
             per-version sub-schema; see specs/03-config.md."
        )
    );
}
