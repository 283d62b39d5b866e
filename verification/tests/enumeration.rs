//! Finding the files of a path source.

use localdb_core::enumeration::{
    enumerate_path_source, with_uris, DirEntry, DirNode, PathEnumeration, PathFilter,
};
use localdb_core::error::Error;
use localdb_core::uri::Uri;

fn file(dir: &str, name: &str) -> DirEntry {
    DirEntry {
        name: name.to_string(),
        node: DirNode::File {
            path: format!("{dir}/{name}"),
        },
    }
}

fn dir(name: &str, entries: Vec<DirEntry>) -> DirEntry {
    DirEntry {
        name: name.to_string(),
        node: DirNode::Directory { entries },
    }
}

fn strings(v: &[&str]) -> Vec<String> {
    v.iter().map(|s| s.to_string()).collect()
}

fn found(entries: &Vec<DirEntry>, includes: &[&str], exclude: &[&str]) -> Vec<String> {
    let result = enumerate_path_source(Some(entries), &strings(includes), &strings(exclude));
    match result.unwrap() {
        PathEnumeration::Complete(files) => files.into_iter().map(|f| f.path).collect(),
        PathEnumeration::RootUnavailable => panic!("root is there"),
    }
}

#[test]
fn enumerate_path_source_missing_root_is_unavailable() {
    let result = enumerate_path_source(None, &[], &[]).unwrap();
    assert!(matches!(result, PathEnumeration::RootUnavailable));
    assert!(result.files().is_empty());
}

#[test]
fn enumerate_path_source_empty_dir_is_complete_and_empty() {
    let result = enumerate_path_source(Some(&vec![]), &[], &[]).unwrap();
    assert!(matches!(&result, PathEnumeration::Complete(f) if f.is_empty()));
}

#[test]
fn enumerate_path_source_finds_files() {
    let entries = vec![file("/r", "a.md"), file("/r", "b.txt")];
    assert_eq!(found(&entries, &[], &[]).len(), 2);
}

#[test]
fn files_are_found_at_any_depth_and_nothing_else_is() {
    let entries = vec![
        file("/r", "b.txt"),
        dir("sub", vec![file("/r/sub", "c.md")]),
        file("/r", "a.md"),
        DirEntry {
            name: "socket".to_string(),
            node: DirNode::Other,
        },
    ];
    assert_eq!(
        found(&entries, &[], &[]),
        vec!["/r/a.md", "/r/b.txt", "/r/sub/c.md"]
    );
}

#[test]
fn enumerate_path_source_include_filter() {
    let entries = vec![file("/r", "notes.md"), file("/r", "data.bin")];
    assert_eq!(found(&entries, &["*.md"], &[]), vec!["/r/notes.md"]);
}

#[test]
fn enumerate_path_source_exclude_filter() {
    let entries = vec![
        dir("node_modules", vec![file("/r/node_modules", "lib.js")]),
        file("/r", "app.js"),
    ];
    assert_eq!(
        found(&entries, &[], &["**/node_modules/**"]),
        vec!["/r/app.js"]
    );
}

#[test]
fn enumerate_excludes_nested_ds_store_by_basename() {
    let entries = vec![
        dir(
            "Call",
            vec![file("/r/Call", ".DS_Store"), file("/r/Call", "note.md")],
        ),
        file("/r", ".DS_Store"),
    ];
    assert_eq!(
        found(&entries, &[], &[".DS_Store"]),
        vec!["/r/Call/note.md"]
    );
}

#[test]
fn enumerate_prunes_nested_junk_dirs_by_basename() {
    let entries = vec![dir(
        "a",
        vec![
            dir(".git", vec![file("/r/a/.git", "config")]),
            dir(
                "node_modules",
                vec![dir("pkg", vec![file("/r/a/node_modules/pkg", "i.js")])],
            ),
            file("/r/a", "keep.md"),
        ],
    )];
    assert_eq!(
        found(&entries, &[], &[".git", "node_modules"]),
        vec!["/r/a/keep.md"]
    );
}

#[test]
fn enumerate_exclude_double_star_pattern_still_works() {
    let entries = vec![dir(
        "sub",
        vec![file("/r/sub", ".DS_Store"), file("/r/sub", "a.md")],
    )];
    assert_eq!(
        found(&entries, &[], &["**/.DS_Store"]),
        vec!["/r/sub/a.md"]
    );
}

#[test]
fn enumerate_include_semantics_unchanged_after_exclude_basename_fix() {
    let entries = vec![dir(
        "docs",
        vec![file("/r/docs", "notes.md"), file("/r/docs", "data.bin")],
    )];
    assert!(found(&entries, &["*.md"], &[]).is_empty());
    assert_eq!(
        found(&entries, &["**/*.md"], &[]),
        vec!["/r/docs/notes.md"]
    );
}

#[test]
fn enumerate_exclude_double_star_prunes_nested_dir_before_recursing() {
    let entries = vec![dir(
        "a",
        vec![
            dir(
                "node_modules",
                vec![dir("big", vec![file("/r/a/node_modules/big", "lib.js")])],
            ),
            file("/r/a", "keep.rs"),
        ],
    )];
    assert_eq!(
        found(&entries, &[], &["**/node_modules"]),
        vec!["/r/a/keep.rs"]
    );
}

#[test]
fn enumerate_path_source_handles_non_ascii_filenames() {
    let entries = vec![
        file("/r", "Notes \u{2013} draft.md"),
        file("/r", "r\u{e9}sum\u{e9}.txt"),
    ];
    assert_eq!(found(&entries, &["*.md"], &[]).len(), 1);
}

#[test]
fn what_an_excluded_directory_holds_does_not_matter() {
    let with = |inner: Vec<DirEntry>| vec![dir(".git", inner), file("/r", "a.md")];
    let exclude = ["**/.git"];
    assert_eq!(
        found(&with(vec![file("/r/.git", "config")]), &[], &exclude),
        found(&with(vec![]), &[], &exclude)
    );
    let filter = PathFilter::new(&[], &strings(&exclude)).unwrap();
    assert!(filter.excluded(".git", ".git"));
    assert!(filter.excluded("a/b/.git", ".git"));
    assert!(!filter.excluded("a/b", "b"));
    assert!(filter.included("anything"));
}

#[test]
fn files_are_in_the_order_of_path_components() {
    let entries = vec![
        file("/r", "a.b"),
        dir("a", vec![file("/r/a", "z")]),
        file("/r", "a-"),
    ];
    let got = found(&entries, &[], &[]);
    let mut expected: Vec<std::path::PathBuf> =
        got.iter().map(std::path::PathBuf::from).collect();
    expected.sort();
    assert_eq!(
        got,
        expected
            .iter()
            .map(|p| p.to_str().unwrap().to_string())
            .collect::<Vec<String>>()
    );
    assert_eq!(got, vec!["/r/a/z", "/r/a-", "/r/a.b"]);
}

#[test]
fn enumerate_path_source_uris_are_file_uris() {
    let result = enumerate_path_source(Some(&vec![file("/r", "test.md")]), &[], &[]).unwrap();
    assert_eq!(result.files().len(), 1);
    let uri = result.files()[0].uri.as_str();
    assert_eq!(Uri::scheme_of_text(uri).as_deref(), Some("file"));
    assert!(uri.starts_with("file://"));
}

#[test]
fn file_uris_are_percent_encoded() {
    let entries = vec![file("/r", "a b.md"), file("/r", "naïve#1.md")];
    let result = enumerate_path_source(Some(&entries), &[], &[]).unwrap();
    let uris: Vec<&str> = result.files().iter().map(|f| f.uri.as_str()).collect();
    assert_eq!(
        uris,
        vec!["file:///r/a%20b.md", "file:///r/na%C3%AFve%231.md"]
    );
}

#[test]
fn a_relative_path_is_an_error() {
    let err = with_uris(&strings(&["/ok", "not/absolute"])).unwrap_err();
    assert_eq!(
        err,
        Error::Internal {
            message: "cannot build a file:// URI for non-absolute path 'not/absolute' \
                      (canonicalization failed and the source root is relative)"
                .to_string(),
            correlation_id: "enumerate_dir".to_string(),
        }
    );
}

#[test]
fn an_invalid_pattern_is_an_error() {
    for (includes, exclude) in [(vec!["["], vec![]), (vec![], vec!["["])] {
        let result =
            enumerate_path_source(Some(&vec![]), &strings(&includes), &strings(&exclude));
        assert!(matches!(result, Err(Error::InvalidConfig { .. })));
    }
    assert!(enumerate_path_source(None, &strings(&["["]), &[]).is_ok());
}

#[test]
fn uris_are_canonical() {
    assert_eq!(
        Uri::parse("HTTP://Example.com/a b").unwrap().as_str(),
        "http://example.com/a%20b"
    );
    assert!(Uri::parse("no uri").is_none());
    assert_eq!(
        Uri::parse("https://e.com/x/y.md").unwrap().last_segment().as_deref(),
        Some("y.md")
    );
    assert_eq!(Uri::parse("mailto:a@b.c").unwrap().last_segment(), None);
    assert_eq!(
        Uri::scheme_of_text("HTTPS://e.com").as_deref(),
        Some("https")
    );
    assert_eq!(Uri::scheme_of_text("https://["), None);
}
