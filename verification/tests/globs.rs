//! Glob patterns.

use localdb_core::error::Error;
use localdb_core::globs::{build_glob_set, glob_match};

#[test]
fn glob_match_exact() {
    assert!(glob_match("README.md", "README.md"));
    assert!(!glob_match("README.md", "readme.md"));
}

#[test]
fn glob_match_star() {
    assert!(glob_match("*.md", "README.md"));
    assert!(glob_match("*.md", "notes.md"));
    assert!(!glob_match("*.md", "path/to/notes.md"));
}

#[test]
fn glob_match_double_star() {
    assert!(glob_match("**/*.md", "notes.md"));
    assert!(glob_match("**/*.md", "docs/notes.md"));
    assert!(glob_match("**/*.md", "a/b/c/notes.md"));
}

#[test]
fn glob_match_double_star_dir() {
    assert!(glob_match("**/node_modules/**", "a/node_modules/b/c"));
}

#[test]
fn glob_match_question_mark() {
    assert!(glob_match("file?.md", "file1.md"));
    assert!(glob_match("file?.md", "fileA.md"));
    assert!(!glob_match("file?.md", "file10.md"));
}

#[test]
fn glob_match_non_ascii_does_not_panic() {
    assert!(glob_match("*.md", "Notes \u{2013} draft.md"));
    assert!(glob_match(
        "**/*.md",
        "caf\u{e9}/r\u{e9}sum\u{e9} \u{2013} v2.md"
    ));
    assert!(glob_match("*", "\u{dc}n\u{ef}c\u{f6}d\u{eb}.txt"));
    assert!(!glob_match("*.pdf", "Notes \u{2013} draft.md"));
}

#[test]
fn the_first_invalid_pattern_is_named() {
    let patterns = vec!["*.md".to_string(), "[".to_string(), "{".to_string()];
    match build_glob_set(&patterns) {
        Err(Error::InvalidConfig { message }) => {
            assert!(
                message.starts_with("invalid glob pattern '[': "),
                "{message}"
            );
            assert!(message.len() > "invalid glob pattern '[': ".len());
        }
        other => panic!("expected InvalidConfig, got {:?}", other.is_ok()),
    }
    assert!(!glob_match("[", "["));
}

#[test]
fn an_empty_set_matches_nothing() {
    let set = build_glob_set(&[]).unwrap();
    assert!(!set.is_match("a"));
}
