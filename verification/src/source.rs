//! Source specifications: checked when they are written, read back with
//! tolerance.

use vstd::prelude::*;
use vstd::string::*;

use crate::duration::{duration_of, validate_refresh_interval};
use crate::error::{fails_with, Error, ErrorView};
use crate::json::{
    is_plain, json_text, member, members, no_members, parsed_json, put, Json, JsonView,
};
use crate::text::{clone_texts, occurs_at, optional_text, same_text, texts, trim, trimmed};
use crate::text_laws::contains_text;
use crate::types::{Source, SourceKind, SourceSpec};
use crate::uri::{url_scheme, Uri};

verus! {

/// The kinds of sources, in the order in which their names are tried.
pub const KINDS: [SourceKind; 3] = [SourceKind::Path, SourceKind::Url, SourceKind::Feed];

/// The patterns of the files that a directory source takes.
pub const DEFAULT_PATH_INCLUDES: [&'static str; 46] = [
    "**/*.md",
    "**/*.markdown",
    "**/*.html",
    "**/*.htm",
    "**/*.pdf",
    "**/*.epub",
    "**/*.docx",
    "**/*.xlsx",
    "**/*.pptx",
    "**/*.odt",
    "**/*.ods",
    "**/*.odp",
    "**/*.txt",
    "**/*.text",
    "**/*.rs",
    "**/*.py",
    "**/*.js",
    "**/*.mjs",
    "**/*.ts",
    "**/*.tsx",
    "**/*.json",
    "**/*.yaml",
    "**/*.yml",
    "**/*.toml",
    "**/*.lock",
    "**/*.c",
    "**/*.h",
    "**/*.cpp",
    "**/*.hpp",
    "**/*.go",
    "**/*.java",
    "**/*.rb",
    "**/*.php",
    "**/*.sh",
    "**/*.css",
    "**/*.scss",
    "**/*.sql",
    "**/*.csv",
    "**/*.xml",
    "**/*.ini",
    "**/*.cfg",
    "**/Cargo.lock",
    "**/package-lock.json",
    "**/yarn.lock",
    "**/poetry.lock",
    "**/Gemfile.lock",
];

/// The patterns of what a path source never takes, at any depth.
pub const DEFAULT_PATH_EXCLUDES: [&'static str; 6] = [
    "**/.git",
    "**/node_modules",
    "**/.DS_Store",
    "**/target",
    "**/__pycache__",
    "**/.venv",
];

/// The texts of a run of borrowed texts.
pub open spec fn borrowed_texts(v: Seq<&'static str>) -> Seq<Seq<char>> {
    v.map_values(|s: &'static str| s@)
}

fn owned_texts(v: &[&'static str]) -> (r: Vec<String>)
    ensures
        texts(r@) == borrowed_texts(v@),
{
    let mut out: Vec<String> = Vec::new();
    let n: usize = v.len();
    let mut i: usize = 0;
    while i < n
        invariant
            0 <= i <= n,
            n == v@.len(),
            texts(out@) =~= borrowed_texts(v@).take(i as int),
        decreases n - i,
    {
        let ghost before = texts(out@);
        out.push(v[i].to_owned());
        proof {
            assert(texts(out@) =~= before.push(v@[i as int]@));
        }
        i += 1;
    }
    out
}

// ---------------------------------------------------------------------------
// Path sources
// ---------------------------------------------------------------------------

/// What stands at a path.
#[derive(Clone, Copy, Debug, PartialEq, Eq, Structural)]
pub enum PathState {
    Missing,
    File,
    /// A directory, or anything else that is there.
    Directory,
}

/// The directory that a path lies in, as `std::path::Path` tells it.
pub uninterp spec fn path_parent(path: Seq<char>) -> Option<Seq<char>>;

/// The last component of a path, as `std::path::Path` tells it.
pub uninterp spec fn path_file_name(path: Seq<char>) -> Option<Seq<char>>;

/// `std::path::Path::parent`: the path without its last component, where it has
/// one. On the platform that the crate is built for, it depends on the path
/// alone.
#[verifier::external_body]
fn parent_of(path: &str) -> (r: Option<String>)
    ensures
        optional_text(r) == path_parent(path@),
{
    std::path::Path::new(path).parent().map(|p| p.to_string_lossy().to_string())
}

/// `std::path::Path::file_name`: the last component of the path, where it is a
/// name. On the platform that the crate is built for, it depends on the path
/// alone.
#[verifier::external_body]
fn file_name_of(path: &str) -> (r: Option<String>)
    ensures
        optional_text(r) == path_file_name(path@),
{
    std::path::Path::new(path).file_name().map(|n| n.to_string_lossy().to_string())
}

/// The root of a source of one file: its directory, or the current one.
pub open spec fn file_root(parent: Option<Seq<char>>) -> Seq<char> {
    match parent {
        Some(p) if p.len() > 0 => p,
        _ => "."@,
    }
}

/// A root with the patterns of inclusion and exclusion below it.
#[verifier::ext_equal]
pub struct RootView {
    pub root: Seq<char>,
    pub includes: Seq<Seq<char>>,
    pub exclude: Seq<Seq<char>>,
}

/// The root and the patterns of a source of one file: only the file itself.
pub open spec fn file_source(parent: Option<Seq<char>>, name: Option<Seq<char>>) -> RootView {
    RootView {
        root: file_root(parent),
        includes: seq![match name {
            Some(n) => n,
            None => Seq::empty(),
        }],
        exclude: borrowed_texts(DEFAULT_PATH_EXCLUDES@),
    }
}

/// The root and the patterns of a directory source.
pub open spec fn directory_source(path: Seq<char>) -> RootView {
    RootView {
        root: path,
        includes: borrowed_texts(DEFAULT_PATH_INCLUDES@),
        exclude: borrowed_texts(DEFAULT_PATH_EXCLUDES@),
    }
}

/// The value of a root with its patterns.
pub open spec fn root_view(r: (String, Vec<String>, Vec<String>)) -> RootView {
    RootView { root: r.0@, includes: texts(r.1@), exclude: texts(r.2@) }
}

/// The root and the patterns of a source of one file, from its directory and its
/// name.
pub fn single_file_source(parent: Option<String>, file_name: Option<String>) -> (r: (
    String,
    Vec<String>,
    Vec<String>,
))
    ensures
        root_view(r) == file_source(optional_text(parent), optional_text(file_name)),
{
    let root = match parent {
        Some(p) => if p.as_str().unicode_len() > 0 {
            p
        } else {
            ".".to_owned()
        },
        None => ".".to_owned(),
    };
    let name = match file_name {
        Some(n) => n,
        None => String::new(),
    };
    let ghost expected = seq![name@];
    let mut includes: Vec<String> = Vec::new();
    includes.push(name);
    proof {
        assert(texts(includes@) =~= expected);
    }
    (root, includes, owned_texts(&DEFAULT_PATH_EXCLUDES))
}

/// The root and the patterns of the source at `raw_path`, where `state` stands.
/// A file is a source of its own; a directory takes the files of known formats.
pub fn normalize_path_source(raw_path: &str, state: PathState) -> (r: Result<
    (String, Vec<String>, Vec<String>),
    Error,
>)
    ensures
        match state {
            PathState::Missing => fails_with(
                r,
                ErrorView::InvalidRequest { message: "path '"@ + raw_path@ + "' does not exist"@ },
            ),
            PathState::File => r is Ok && root_view(r->Ok_0) == file_source(
                path_parent(raw_path@),
                path_file_name(raw_path@),
            ),
            PathState::Directory => r is Ok && root_view(r->Ok_0) == directory_source(raw_path@),
        },
{
    match state {
        PathState::Missing => {
            let mut message = "path '".to_owned();
            message.append(raw_path);
            message.append("' does not exist");
            Err(Error::InvalidRequest { message })
        },
        PathState::File => Ok(single_file_source(parent_of(raw_path), file_name_of(raw_path))),
        PathState::Directory => Ok(
            (
                raw_path.to_owned(),
                owned_texts(&DEFAULT_PATH_INCLUDES),
                owned_texts(&DEFAULT_PATH_EXCLUDES),
            ),
        ),
    }
}

// ---------------------------------------------------------------------------
// Parsed specifications
// ---------------------------------------------------------------------------

/// A source specification that was checked.
#[derive(Clone, Debug, PartialEq, Eq)]
pub struct ParsedSourceSpec {
    pub kind: SourceKind,
    pub root: Option<String>,
    pub url: Option<String>,
    pub includes: Vec<String>,
    pub exclude: Vec<String>,
    /// Settings of a feed source as JSON.
    pub config_json: Option<String>,
}

/// The mathematical value of a [`ParsedSourceSpec`].
#[verifier::ext_equal]
pub struct ParsedView {
    pub kind: SourceKind,
    pub root: Option<Seq<char>>,
    pub url: Option<Seq<char>>,
    pub includes: Seq<Seq<char>>,
    pub exclude: Seq<Seq<char>>,
    pub config_json: Option<Seq<char>>,
}

impl View for ParsedSourceSpec {
    type V = ParsedView;

    open spec fn view(&self) -> ParsedView {
        ParsedView {
            kind: self.kind,
            root: optional_text(self.root),
            url: optional_text(self.url),
            includes: texts(self.includes@),
            exclude: texts(self.exclude@),
            config_json: optional_text(self.config_json),
        }
    }
}

/// Whether `r` is what `expected` says.
pub open spec fn parses_as(
    r: Result<ParsedSourceSpec, Error>,
    expected: Result<ParsedView, ErrorView>,
) -> bool {
    match (r, expected) {
        (Ok(p), Ok(v)) => p@ == v,
        (Err(e), Err(v)) => e@ == v,
        _ => false,
    }
}

/// A refused request.
pub open spec fn refused<T>(message: Seq<char>) -> Result<T, ErrorView> {
    Err(ErrorView::InvalidRequest { message })
}

/// The text under `field`, or the refusal `missing`.
pub open spec fn required_text(
    spec: JsonView,
    field: Seq<char>,
    missing: Seq<char>,
) -> Result<Seq<char>, ErrorView> {
    match member(spec, field) {
        Some(JsonView::Text(t)) => Ok(t),
        _ => refused(missing),
    }
}

/// The text under `field`, or the refusal `missing_message`.
fn required_string_field(spec: &Json, field: &str, missing_message: &str) -> (r: Result<
    String,
    Error,
>)
    ensures
        match required_text(spec@, field@, missing_message@) {
            Ok(t) => r is Ok && r->Ok_0@ == t,
            Err(e) => fails_with(r, e),
        },
{
    match spec.get(field) {
        Some(v) => match v.as_str() {
            Some(t) => Ok(t.to_owned()),
            None => Err(Error::InvalidRequest { message: missing_message.to_owned() }),
        },
        None => Err(Error::InvalidRequest { message: missing_message.to_owned() }),
    }
}

/// The texts of an array, where every member is one.
pub open spec fn array_texts(a: Seq<JsonView>) -> Option<Seq<Seq<char>>>
    decreases a.len(),
{
    if a.len() == 0 {
        Some(Seq::empty())
    } else {
        match (array_texts(a.drop_last()), a.last()) {
            (Some(front), JsonView::Text(t)) => Some(front.push(t)),
            _ => None,
        }
    }
}

/// The texts of the array under `field`; none where there is no such field.
pub open spec fn text_array(spec: JsonView, field: Seq<char>) -> Result<
    Seq<Seq<char>>,
    ErrorView,
> {
    match member(spec, field) {
        None => Ok(Seq::empty()),
        Some(JsonView::Array(a)) => match array_texts(a) {
            Some(t) => Ok(t),
            None => refused(
                "source spec field '"@ + field + "' contains a non-string value"@,
            ),
        },
        Some(_) => refused(
            "source spec field '"@ + field + "' must be a JSON array of strings"@,
        ),
    }
}

proof fn lemma_array_texts_prefix(a: Seq<JsonView>, k: int)
    requires
        0 <= k <= a.len(),
        array_texts(a.take(k)) is None,
    ensures
        array_texts(a) is None,
    decreases a.len() - k,
{
    if k < a.len() {
        assert(a.take(k + 1).drop_last() =~= a.take(k));
        lemma_array_texts_prefix(a, k + 1);
    } else {
        assert(a.take(k) =~= a);
    }
}

fn field_complaint(field: &str, why: &str) -> (r: Error)
    ensures
        r@ == (ErrorView::InvalidRequest { message: "source spec field '"@ + field@ + why@ }),
{
    let mut message = "source spec field '".to_owned();
    message.append(field);
    message.append(why);
    Error::InvalidRequest { message }
}

/// The texts of the array under `field`; none where there is no such field.
fn string_array_field(spec: &Json, field: &str) -> (r: Result<Vec<String>, Error>)
    ensures
        match text_array(spec@, field@) {
            Ok(t) => r is Ok && texts(r->Ok_0@) == t,
            Err(e) => fails_with(r, e),
        },
{
    let raw = match spec.get(field) {
        Some(v) => v,
        None => {
            let none: Vec<String> = Vec::new();
            proof {
                assert(texts(none@) =~= Seq::empty());
            }
            return Ok(none);
        },
    };
    match raw {
        Json::Array(a) => {
            let ghost all = raw@->Array_0;
            let mut out: Vec<String> = Vec::new();
            let n: usize = a.len();
            let mut i: usize = 0;
            proof {
                assert(texts(out@) =~= Seq::empty());
                assert(all.take(0) =~= Seq::empty());
            }
            while i < n
                invariant
                    0 <= i <= n,
                    n == a@.len(),
                    *raw == Json::Array(*a),
                    all == raw@->Array_0,
                    all.len() == n,
                    member(spec@, field@) == Some(JsonView::Array(all)),
                    array_texts(all.take(i as int)) == Some(texts(out@)),
                decreases n - i,
            {
                let ghost before = texts(out@);
                proof {
                    assert(all.take(i + 1).drop_last() =~= all.take(i as int));
                    assert(all.take(i + 1).last() == a@[i as int]@);
                }
                match a[i].as_str() {
                    Some(t) => {
                        out.push(t.to_owned());
                        proof {
                            assert(texts(out@) =~= before.push(t@));
                        }
                    },
                    None => {
                        proof {
                            lemma_array_texts_prefix(all, i + 1);
                        }
                        return Err(field_complaint(field, "' contains a non-string value"));
                    },
                }
                i += 1;
            }
            proof {
                assert(all.take(n as int) =~= all);
            }
            Ok(out)
        },
        _ => Err(field_complaint(field, "' must be a JSON array of strings")),
    }
}

/// What a path specification parses to.
pub open spec fn parsed_path(spec: JsonView) -> Result<ParsedView, ErrorView> {
    match required_text(spec, "root"@, "path source requires 'root'"@) {
        Err(e) => Err(e),
        Ok(root) => match text_array(spec, "include"@) {
            Err(e) => Err(e),
            Ok(includes) => match text_array(spec, "exclude"@) {
                Err(e) => Err(e),
                Ok(exclude) => Ok(
                    ParsedView {
                        kind: SourceKind::Path,
                        root: Some(root),
                        url: None,
                        includes,
                        exclude,
                        config_json: None,
                    },
                ),
            },
        },
    }
}

/// What a URL specification parses to.
pub open spec fn parsed_url(spec: JsonView) -> Result<ParsedView, ErrorView> {
    match required_text(spec, "url"@, "url source requires 'url'"@) {
        Err(e) => Err(e),
        Ok(url) => Ok(
            ParsedView {
                kind: SourceKind::Url,
                root: None,
                url: Some(url),
                includes: Seq::empty(),
                exclude: Seq::empty(),
                config_json: None,
            },
        ),
    }
}

/// Path sources.
pub struct PathKind;

impl PathKind {
    /// Checks the specification of a path source.
    pub fn parse_spec(&self, spec: &Json) -> (r: Result<ParsedSourceSpec, Error>)
        ensures
            parses_as(r, parsed_path(spec@)),
    {
        let root = match required_string_field(spec, "root", "path source requires 'root'") {
            Ok(t) => t,
            Err(e) => {
                return Err(e);
            },
        };
        let includes = match string_array_field(spec, "include") {
            Ok(t) => t,
            Err(e) => {
                return Err(e);
            },
        };
        let exclude = match string_array_field(spec, "exclude") {
            Ok(t) => t,
            Err(e) => {
                return Err(e);
            },
        };
        Ok(
            ParsedSourceSpec {
                kind: SourceKind::Path,
                root: Some(root),
                url: None,
                includes,
                exclude,
                config_json: None,
            },
        )
    }
}

/// URL sources.
pub struct UrlKind;

impl UrlKind {
    /// Checks the specification of a URL source.
    pub fn parse_spec(&self, spec: &Json) -> (r: Result<ParsedSourceSpec, Error>)
        ensures
            parses_as(r, parsed_url(spec@)),
    {
        let url = match required_string_field(spec, "url", "url source requires 'url'") {
            Ok(t) => t,
            Err(e) => {
                return Err(e);
            },
        };
        let p = ParsedSourceSpec {
            kind: SourceKind::Url,
            root: None,
            url: Some(url),
            includes: Vec::new(),
            exclude: Vec::new(),
            config_json: None,
        };
        proof {
            assert(texts(Seq::<String>::empty()) =~= Seq::empty());
            assert(p.includes@ =~= Seq::empty());
            assert(p.exclude@ =~= Seq::empty());
        }
        Ok(p)
    }
}

// ---------------------------------------------------------------------------
// Feed sources
// ---------------------------------------------------------------------------

/// Checks the cap on the entries of a feed: none is unbounded, zero is refused.
pub fn validate_max_entries(max_entries: Option<u32>) -> (r: Result<Option<u32>, Error>)
    ensures
        max_entries == Some(0u32) ==> fails_with(
            r,
            ErrorView::InvalidRequest {
                message: "invalid max_entries '0': must be greater than zero, or omitted for unbounded"@,
            },
        ),
        max_entries != Some(0u32) ==> r == Ok::<Option<u32>, Error>(max_entries),
{
    match max_entries {
        Some(0) => Err(
            Error::InvalidRequest {
                message: "invalid max_entries '0': must be greater than zero, or omitted for unbounded".to_owned(),
            },
        ),
        other => Ok(other),
    }
}

/// Settings of a feed source.
#[derive(Clone, Copy, Debug, PartialEq, Eq, Structural)]
pub struct FeedConfig {
    pub max_entries: Option<u32>,
    pub fetch_full_content: bool,
}

/// The settings of a feed that says nothing: unbounded, with full content.
pub open spec fn default_feed_config() -> FeedConfig {
    FeedConfig { max_entries: None, fetch_full_content: true }
}

impl Default for FeedConfig {
    fn default() -> (r: FeedConfig)
        ensures
            r == default_feed_config(),
    {
        FeedConfig { max_entries: None, fetch_full_content: true }
    }
}

/// The settings that a JSON value holds. What is missing or of the wrong type
/// takes its default; a cap that is too large loses its high bits.
pub open spec fn feed_config_of(j: JsonView) -> FeedConfig {
    FeedConfig {
        max_entries: match member(j, "max_entries"@) {
            Some(JsonView::Integer(n)) if n >= 0 => Some((n % 0x1_0000_0000) as u32),
            _ => None,
        },
        fetch_full_content: match member(j, "fetch_full_content"@) {
            Some(JsonView::Bool(b)) => b,
            _ => true,
        },
    }
}

/// The settings that a stored text holds: the defaults for none, an empty one or
/// one that is no JSON.
pub open spec fn read_feed_config(text: Option<Seq<char>>) -> FeedConfig {
    match text {
        None => default_feed_config(),
        Some(raw) => if trimmed(raw).len() == 0 {
            default_feed_config()
        } else {
            match parsed_json(trimmed(raw)) {
                Some(j) => feed_config_of(j),
                None => default_feed_config(),
            }
        },
    }
}

/// The settings that a JSON value holds.
pub fn feed_config_from_json(value: &Json) -> (r: FeedConfig)
    ensures
        r == feed_config_of(value@),
{
    let max_entries: Option<u32> = match value.get("max_entries") {
        Some(v) => match v.as_u64() {
            Some(n) => Some((n % 0x1_0000_0000) as u32),
            None => None,
        },
        None => None,
    };
    let fetch_full_content: bool = match value.get("fetch_full_content") {
        Some(v) => match v.as_bool() {
            Some(b) => b,
            None => true,
        },
        None => true,
    };
    FeedConfig { max_entries, fetch_full_content }
}

/// The settings that a stored text holds. A text that is corrupt or stale gives
/// defaults and never an error.
pub fn parse_feed_config_json(config_json: Option<&str>) -> (r: FeedConfig)
    ensures
        r == read_feed_config(crate::chunker::borrowed_text(config_json)),
{
    let raw = match config_json {
        Some(raw) => raw,
        None => {
            return FeedConfig::default();
        },
    };
    let text = trim(raw);
    if text.as_str().unicode_len() == 0 {
        return FeedConfig::default();
    }
    match Json::parse(text.as_str()) {
        Some(value) => feed_config_from_json(&value),
        None => FeedConfig::default(),
    }
}

/// The JSON value of the settings of a feed.
pub open spec fn feed_config_json(c: FeedConfig) -> JsonView {
    JsonView::Object(
        map![
            "max_entries"@ => match c.max_entries {
                Some(n) => JsonView::Integer(n as int),
                None => JsonView::Null,
            },
            "fetch_full_content"@ => JsonView::Bool(c.fetch_full_content),
        ],
    )
}

proof fn lemma_feed_keys()
    ensures
        "max_entries"@.len() == 11,
        "fetch_full_content"@.len() == 18,
        "max_entries"@ != "fetch_full_content"@,
{
    reveal_strlit("max_entries");
    reveal_strlit("fetch_full_content");
}

/// The text that the settings of a feed are stored as. Read back, it gives the
/// same settings.
pub fn build_feed_config_json(max_entries: Option<u32>, fetch_full_content: bool) -> (r: String)
    ensures
        r@ == json_text(feed_config_json(FeedConfig { max_entries, fetch_full_content })),
        read_feed_config(Some(r@)) == (FeedConfig { max_entries, fetch_full_content }),
{
    let entries = match max_entries {
        Some(n) => Json::Unsigned(n as u64),
        None => Json::Null,
    };
    let full = Json::Bool(fetch_full_content);
    let mut pairs = no_members();
    put(&mut pairs, "max_entries", entries);
    put(&mut pairs, "fetch_full_content", full);
    let value = Json::Object(pairs);
    proof {
        lemma_feed_keys();
        let config = FeedConfig { max_entries, fetch_full_content };
        assert(members(pairs) =~= feed_config_json(config)->Object_0);
        assert(value@ == feed_config_json(config));
        assert(is_plain(value@, 100)) by {
            reveal_with_fuel(is_plain, 2);
        }
    }
    value.render()
}

/// The cap that a feed specification asks for.
pub open spec fn max_entries_of(spec: JsonView) -> Result<Option<u32>, ErrorView> {
    match member(spec, "max_entries"@) {
        None | Some(JsonView::Null) => Ok(None),
        Some(JsonView::Integer(n)) if 0 <= n <= u32::MAX => if n == 0 {
            refused(
                "invalid max_entries '0': must be greater than zero, or omitted for unbounded"@,
            )
        } else {
            Ok(Some(n as u32))
        },
        Some(v) => refused(
            "feed source 'max_entries' must be a positive integer no greater than 4294967295: "@
                + json_text(v),
        ),
    }
}

/// Whether a feed specification asks for full content.
pub open spec fn full_content_of(spec: JsonView) -> Result<bool, ErrorView> {
    match member(spec, "fetch_full_content"@) {
        None | Some(JsonView::Null) => Ok(true),
        Some(JsonView::Bool(b)) => Ok(b),
        Some(v) => refused(
            "feed source 'fetch_full_content' must be a boolean: "@ + json_text(v),
        ),
    }
}

/// Whether a scheme is that of the web.
pub open spec fn is_web_scheme(scheme: Option<Seq<char>>) -> bool {
    scheme == Some("http"@) || scheme == Some("https"@)
}

/// What a feed specification parses to, given the scheme of its address.
pub open spec fn parsed_feed(spec: JsonView, url: Seq<char>, scheme: Option<Seq<char>>) -> Result<
    ParsedView,
    ErrorView,
> {
    if !is_web_scheme(scheme) {
        refused("feed source 'url' must be a valid http(s) URL: '"@ + url + "'"@)
    } else {
        match max_entries_of(spec) {
            Err(e) => Err(e),
            Ok(max_entries) => match full_content_of(spec) {
                Err(e) => Err(e),
                Ok(fetch_full_content) => Ok(
                    ParsedView {
                        kind: SourceKind::Feed,
                        root: None,
                        url: Some(url),
                        includes: Seq::empty(),
                        exclude: Seq::empty(),
                        config_json: Some(
                            json_text(
                                feed_config_json(FeedConfig { max_entries, fetch_full_content }),
                            ),
                        ),
                    },
                ),
            },
        }
    }
}

fn max_entries_field(spec: &Json) -> (r: Result<Option<u32>, Error>)
    ensures
        match max_entries_of(spec@) {
            Ok(m) => r == Ok::<Option<u32>, Error>(m),
            Err(e) => fails_with(r, e),
        },
{
    let v = match spec.get("max_entries") {
        Some(v) => v,
        None => {
            return Ok(None);
        },
    };
    if let Json::Null = v {
        return Ok(None);
    }
    if let Some(n) = v.as_u64() {
        if n <= 4_294_967_295 {
            return validate_max_entries(Some(n as u32));
        }
    }
    let mut message =
        "feed source 'max_entries' must be a positive integer no greater than 4294967295: ".to_owned();
    let text = v.render();
    message.append(text.as_str());
    Err(Error::InvalidRequest { message })
}

fn full_content_field(spec: &Json) -> (r: Result<bool, Error>)
    ensures
        match full_content_of(spec@) {
            Ok(b) => r == Ok::<bool, Error>(b),
            Err(e) => fails_with(r, e),
        },
{
    match spec.get("fetch_full_content") {
        None => Ok(true),
        Some(Json::Null) => Ok(true),
        Some(Json::Bool(b)) => Ok(*b),
        Some(v) => {
            let mut message = "feed source 'fetch_full_content' must be a boolean: ".to_owned();
            let text = v.render();
            message.append(text.as_str());
            Err(Error::InvalidRequest { message })
        },
    }
}

/// Feed sources.
pub struct FeedKind;

impl FeedKind {
    /// Checks the specification of a feed source at `url`, whose scheme is
    /// `scheme`.
    pub fn parse_spec_of(&self, spec: &Json, url: String, scheme: Option<String>) -> (r: Result<
        ParsedSourceSpec,
        Error,
    >)
        ensures
            parses_as(r, parsed_feed(spec@, url@, optional_text(scheme))),
    {
        let web: bool = match &scheme {
            Some(s) => same_text(s.as_str(), "http") || same_text(s.as_str(), "https"),
            None => false,
        };
        if !web {
            let mut message = "feed source 'url' must be a valid http(s) URL: '".to_owned();
            message.append(url.as_str());
            message.append("'");
            return Err(Error::InvalidRequest { message });
        }
        let max_entries = match max_entries_field(spec) {
            Ok(m) => m,
            Err(e) => {
                return Err(e);
            },
        };
        let fetch_full_content: bool = match full_content_field(spec) {
            Ok(b) => b,
            Err(e) => {
                return Err(e);
            },
        };
        let config_json = build_feed_config_json(max_entries, fetch_full_content);
        let p = ParsedSourceSpec {
            kind: SourceKind::Feed,
            root: None,
            url: Some(url),
            includes: Vec::new(),
            exclude: Vec::new(),
            config_json: Some(config_json),
        };
        proof {
            assert(texts(p.includes@) =~= Seq::empty());
            assert(texts(p.exclude@) =~= Seq::empty());
        }
        Ok(p)
    }

    /// Checks the specification of a feed source.
    pub fn parse_spec(&self, spec: &Json) -> (r: Result<ParsedSourceSpec, Error>)
        ensures
            parses_as(r, parsed_feed_spec(spec@)),
    {
        let url = match required_string_field(spec, "url", "feed source requires 'url'") {
            Ok(t) => t,
            Err(e) => {
                return Err(e);
            },
        };
        let scheme = Uri::scheme_of_text(url.as_str());
        self.parse_spec_of(spec, url, scheme)
    }
}

/// What a feed specification parses to.
pub open spec fn parsed_feed_spec(spec: JsonView) -> Result<ParsedView, ErrorView> {
    match required_text(spec, "url"@, "feed source requires 'url'"@) {
        Err(e) => Err(e),
        Ok(url) => parsed_feed(spec, url, url_scheme(url)),
    }
}

// ---------------------------------------------------------------------------
// Dispatch
// ---------------------------------------------------------------------------

/// The name of a kind of sources.
pub open spec fn kind_name(kind: SourceKind) -> Seq<char> {
    match kind {
        SourceKind::Path => "path"@,
        SourceKind::Url => "url"@,
        SourceKind::Feed => "feed"@,
    }
}

/// The name of a kind of sources.
pub fn kind_str(kind: SourceKind) -> (r: &'static str)
    ensures
        r@ == kind_name(kind),
{
    match kind {
        SourceKind::Path => "path",
        SourceKind::Url => "url",
        SourceKind::Feed => "feed",
    }
}

/// The first of the kinds from place `i` on that has the name `name`.
pub open spec fn kind_named(name: Seq<char>, i: int) -> Option<SourceKind>
    decreases 3 - i,
{
    if i < 0 || i >= 3 {
        None
    } else if kind_name(KINDS@[i]) == name {
        Some(KINDS@[i])
    } else {
        kind_named(name, i + 1)
    }
}

/// The kind of sources that has the name `name`.
pub fn find_kind(name: &str) -> (r: Option<SourceKind>)
    ensures
        r == kind_named(name@, 0),
{
    let mut i: usize = 0;
    while i < 3
        invariant
            0 <= i <= 3,
            kind_named(name@, 0) == kind_named(name@, i as int),
        decreases 3 - i,
    {
        if same_text(kind_str(KINDS[i]), name) {
            return Some(KINDS[i]);
        }
        i += 1;
    }
    None
}

/// What a specification of the named kind parses to.
pub open spec fn parsed_spec(kind: Seq<char>, spec: JsonView) -> Result<ParsedView, ErrorView> {
    match kind_named(kind, 0) {
        Some(SourceKind::Path) => parsed_path(spec),
        Some(SourceKind::Url) => parsed_url(spec),
        Some(SourceKind::Feed) => parsed_feed_spec(spec),
        None => refused("unknown source kind '"@ + kind + "'"@),
    }
}

/// Checks a source specification of the named kind.
pub fn parse_source_spec(kind: &str, spec: &Json) -> (r: Result<ParsedSourceSpec, Error>)
    ensures
        parses_as(r, parsed_spec(kind@, spec@)),
{
    match find_kind(kind) {
        Some(SourceKind::Path) => PathKind.parse_spec(spec),
        Some(SourceKind::Url) => UrlKind.parse_spec(spec),
        Some(SourceKind::Feed) => FeedKind.parse_spec(spec),
        None => {
            let mut message = "unknown source kind '".to_owned();
            message.append(kind);
            message.append("'");
            Err(Error::InvalidRequest { message })
        },
    }
}

/// A source as a store keeps it.
#[derive(Clone, Debug, PartialEq, Eq)]
pub struct SourceRow {
    pub id: String,
    pub store_id: String,
    pub kind: SourceKind,
    pub root: Option<String>,
    pub url: Option<String>,
    pub includes: Vec<String>,
    pub exclude: Vec<String>,
    pub preset: String,
    /// Refresh interval as it was given.
    pub refresh: Option<String>,
    pub created_at: String,
    pub config_json: Option<String>,
}

/// The refresh interval of a row in seconds; none where the text is no duration.
pub open spec fn refresh_secs(refresh: Option<Seq<char>>) -> Option<u64> {
    match refresh {
        Some(s) => match duration_of(s) {
            Ok(n) if n <= u64::MAX => Some(n as u64),
            _ => None,
        },
        None => None,
    }
}

/// The refresh interval of a row in seconds.
pub fn refresh_interval_from(row: &SourceRow) -> (r: Option<u64>)
    ensures
        r == refresh_secs(optional_text(row.refresh)),
{
    match &row.refresh {
        Some(s) => match validate_refresh_interval(s.as_str()) {
            Ok(secs) => secs,
            Err(_) => None,
        },
        None => None,
    }
}

/// The text of `o`, or an empty one.
pub open spec fn text_or_empty(o: Option<String>) -> Seq<char> {
    match o {
        Some(s) => s@,
        None => Seq::empty(),
    }
}

fn clone_or_empty(o: &Option<String>) -> (r: String)
    ensures
        r@ == text_or_empty(*o),
{
    match o {
        Some(s) => s.clone(),
        None => String::new(),
    }
}

/// Whether `spec` is what `row` says of its source.
pub open spec fn is_spec_of(spec: SourceSpec, row: SourceRow) -> bool {
    match (row.kind, spec) {
        (SourceKind::Path, SourceSpec::Path { root, includes, exclude }) => root@ == text_or_empty(
            row.root,
        ) && includes@ == row.includes@ && exclude@ == row.exclude@,
        (SourceKind::Url, SourceSpec::Url { url, refresh_interval_secs }) => url@ == text_or_empty(
            row.url,
        ) && refresh_interval_secs == refresh_secs(optional_text(row.refresh)),
        (
            SourceKind::Feed,
            SourceSpec::Feed { url, max_entries, fetch_full_content, refresh_interval_secs },
        ) => url@ == text_or_empty(row.url) && (FeedConfig { max_entries, fetch_full_content })
            == read_feed_config(optional_text(row.config_json)) && refresh_interval_secs
            == refresh_secs(optional_text(row.refresh)),
        _ => false,
    }
}

/// What `row` says of its source, by kind.
pub fn row_to_spec(row: &SourceRow) -> (r: SourceSpec)
    ensures
        is_spec_of(r, *row),
{
    match row.kind {
        SourceKind::Path => SourceSpec::Path {
            root: clone_or_empty(&row.root),
            includes: clone_texts(&row.includes),
            exclude: clone_texts(&row.exclude),
        },
        SourceKind::Url => SourceSpec::Url {
            url: clone_or_empty(&row.url),
            refresh_interval_secs: refresh_interval_from(row),
        },
        SourceKind::Feed => {
            let config = match &row.config_json {
                Some(text) => parse_feed_config_json(Some(text.as_str())),
                None => parse_feed_config_json(None),
            };
            SourceSpec::Feed {
                url: clone_or_empty(&row.url),
                max_entries: config.max_entries,
                fetch_full_content: config.fetch_full_content,
                refresh_interval_secs: refresh_interval_from(row),
            }
        },
    }
}

/// The source that a row keeps. Stale rows give defaults and never an error.
pub fn source_row_to_source(row: &SourceRow) -> (r: Source)
    ensures
        r.id == row.id,
        r.store_id == row.store_id,
        r.kind == row.kind,
        r.source_preset == row.preset,
        is_spec_of(r.spec, *row),
{
    Source {
        id: row.id.clone(),
        store_id: row.store_id.clone(),
        kind: row.kind,
        spec: row_to_spec(row),
        source_preset: row.preset.clone(),
    }
}

// ---------------------------------------------------------------------------
// Laws
// ---------------------------------------------------------------------------

/// Every kind is found by its name.
pub proof fn law_kinds_are_found_by_name(kind: SourceKind)
    ensures
        kind_named(kind_name(kind), 0) == Some(kind),
{
    reveal_strlit("path");
    reveal_strlit("url");
    reveal_strlit("feed");
    assert("path"@[0] != "feed"@[0]);
    reveal_with_fuel(kind_named, 4);
}

/// A specification that parses has the kind of its name.
pub proof fn law_parsed_kind(kind: SourceKind, spec: JsonView)
    ensures
        parsed_spec(kind_name(kind), spec) matches Ok(p) ==> p.kind == kind,
{
    law_kinds_are_found_by_name(kind);
}

/// A feed specification that parses has an address of the web, and never a cap
/// of zero.
pub proof fn law_parsed_feed_is_valid(spec: JsonView)
    ensures
        parsed_feed_spec(spec) matches Ok(p) ==> p.url is Some && is_web_scheme(
            url_scheme(p.url->0),
        ),
        parsed_feed_spec(spec) is Ok ==> max_entries_of(spec) is Ok && max_entries_of(spec)->Ok_0
            != Some(0u32),
{
}

/// An array is read as texts if and only if all its members are texts, and then as
/// these, in order.
pub proof fn law_arrays_are_read_member_by_member(a: Seq<JsonView>)
    ensures
        array_texts(a) is Some <==> forall|i: int| 0 <= i < a.len() ==> #[trigger] a[i] is Text,
        array_texts(a) matches Some(t) ==> t.len() == a.len() && forall|i: int|
            0 <= i < a.len() ==> #[trigger] a[i] == JsonView::Text(t[i]),
    decreases a.len(),
{
    if a.len() > 0 {
        let front = a.drop_last();
        law_arrays_are_read_member_by_member(front);
        if forall|i: int| 0 <= i < a.len() ==> #[trigger] a[i] is Text {
            assert forall|i: int| 0 <= i < front.len() implies #[trigger] front[i] is Text by {
                assert(a[i] is Text);
            }
            assert(a[a.len() - 1] is Text);
        }
        if let Some(t) = array_texts(a) {
            assert forall|i: int| 0 <= i < a.len() implies #[trigger] a[i] == JsonView::Text(
                t[i],
            ) by {
                if i < front.len() {
                    assert(front[i] == a[i]);
                }
            }
        }
    }
}

/// Whether `list` is what a specification gives under `field`: its texts, or
/// nothing where it has no such field.
pub open spec fn given_under(spec: JsonView, field: Seq<char>, list: Seq<Seq<char>>) -> bool {
    match member(spec, field) {
        None => list.len() == 0,
        Some(JsonView::Array(a)) => a.len() == list.len() && forall|i: int|
            0 <= i < a.len() ==> #[trigger] a[i] == JsonView::Text(list[i]),
        Some(_) => false,
    }
}

/// A path specification parses to its root and its patterns, and is refused where
/// the root is no text or a list of patterns is no list of texts.
pub proof fn law_path_specs(spec: JsonView)
    ensures
        parsed_path(spec) matches Ok(p) ==> {
            &&& p.kind == SourceKind::Path && p.url is None && p.config_json is None
            &&& p.root is Some && member(spec, "root"@) == Some(JsonView::Text(p.root->0))
            &&& given_under(spec, "include"@, p.includes)
            &&& given_under(spec, "exclude"@, p.exclude)
        },
        (member(spec, "root"@) matches Some(v) && v is Text) && (exists|a: Seq<Seq<char>>|
            given_under(spec, "include"@, a)) && (exists|b: Seq<Seq<char>>|
            given_under(spec, "exclude"@, b)) ==> parsed_path(spec) is Ok,
{
    lemma_text_array(spec, "include"@);
    lemma_text_array(spec, "exclude"@);
}

proof fn lemma_text_array(spec: JsonView, field: Seq<char>)
    ensures
        text_array(spec, field) matches Ok(t) ==> given_under(spec, field, t),
        (exists|t: Seq<Seq<char>>| given_under(spec, field, t)) ==> text_array(spec, field) is Ok,
{
    if let Some(JsonView::Array(a)) = member(spec, field) {
        law_arrays_are_read_member_by_member(a);
        if exists|t: Seq<Seq<char>>| given_under(spec, field, t) {
            let t = choose|t: Seq<Seq<char>>| given_under(spec, field, t);
            assert forall|i: int| 0 <= i < a.len() implies #[trigger] a[i] is Text by {
                assert(a[i] == JsonView::Text(t[i]));
            }
        }
    }
}

/// A URL specification parses to its address, if and only if it has one.
pub proof fn law_url_specs(spec: JsonView)
    ensures
        parsed_url(spec) is Ok <==> (member(spec, "url"@) matches Some(v) && v is Text),
        parsed_url(spec) matches Ok(p) ==> p.kind == SourceKind::Url && p.root is None
            && p.config_json is None && p.includes.len() == 0 && p.exclude.len() == 0 && p.url is Some
            && member(spec, "url"@) == Some(JsonView::Text(p.url->0)),
{
}

/// A feed specification parses if and only if its address is one of the web, its
/// cap, where it has one, a number from 1 to `u32::MAX`, and its wish for full
/// content, where it has one, a truth value.
pub proof fn law_feed_specs(spec: JsonView)
    ensures
        parsed_feed_spec(spec) is Ok <==> {
            &&& member(spec, "url"@) matches Some(JsonView::Text(url)) && (url_scheme(url) == Some(
                "http"@,
            ) || url_scheme(url) == Some("https"@))
            &&& match member(spec, "max_entries"@) {
                None => true,
                Some(JsonView::Null) => true,
                Some(JsonView::Integer(n)) => 1 <= n <= u32::MAX,
                _ => false,
            }
            &&& match member(spec, "fetch_full_content"@) {
                None => true,
                Some(JsonView::Null) => true,
                Some(JsonView::Bool(_)) => true,
                _ => false,
            }
        },
        parsed_feed_spec(spec) matches Ok(p) ==> {
            &&& p.kind == SourceKind::Feed && p.root is None && p.includes.len() == 0
            &&& p.exclude.len() == 0
            &&& p.url is Some && member(spec, "url"@) == Some(JsonView::Text(p.url->0))
            &&& exists|c: FeedConfig|
                p.config_json == Some(json_text(#[trigger] feed_config_json(c))) && (match member(
                    spec,
                    "max_entries"@,
                ) {
                    Some(JsonView::Integer(n)) => c.max_entries == Some(n as u32),
                    _ => c.max_entries is None,
                }) && (match member(spec, "fetch_full_content"@) {
                    Some(JsonView::Bool(b)) => c.fetch_full_content == b,
                    _ => c.fetch_full_content,
                })
        },
{
    if let Ok(p) = parsed_feed_spec(spec) {
        let c = FeedConfig {
            max_entries: max_entries_of(spec)->Ok_0,
            fetch_full_content: full_content_of(spec)->Ok_0,
        };
        assert(p.config_json == Some(json_text(feed_config_json(c))));
    }
}

/// The settings of a feed are read back from their JSON, and whatever is missing or
/// of another type takes its default.
pub proof fn law_feed_settings_are_read_back(c: FeedConfig, j: JsonView)
    ensures
        feed_config_of(feed_config_json(c)) == c,
        !(member(j, "max_entries"@) matches Some(v) && v is Integer) ==> feed_config_of(
            j,
        ).max_entries is None,
        !(member(j, "fetch_full_content"@) matches Some(v) && v is Bool) ==> feed_config_of(
            j,
        ).fetch_full_content,
        member(j, "fetch_full_content"@) matches Some(JsonView::Bool(b)) ==> feed_config_of(
            j,
        ).fetch_full_content == b,
        member(j, "max_entries"@) matches Some(JsonView::Integer(n)) ==> (0 <= n <= u32::MAX
            ==> feed_config_of(j).max_entries == Some(n as u32)),
{
    lemma_feed_keys();
}

/// Settings that were never stored, or that cannot be read, are the defaults.
pub proof fn law_unreadable_settings_are_defaults(text: Seq<char>)
    ensures
        read_feed_config(None) == (FeedConfig { max_entries: None, fetch_full_content: true }),
        trimmed(text).len() == 0 || parsed_json(trimmed(text)) is None ==> read_feed_config(
            Some(text),
        ) == (FeedConfig { max_entries: None, fetch_full_content: true }),
        trimmed(text).len() > 0 ==> (parsed_json(trimmed(text)) matches Some(j)
            ==> read_feed_config(Some(text)) == feed_config_of(j)),
{
}

/// A row is read back by its kind: a path with its root and patterns, an address
/// with its refresh interval, and a feed with its settings besides.
pub proof fn law_rows_are_read_back(spec: SourceSpec, row: SourceRow)
    requires
        is_spec_of(spec, row),
    ensures
        row.kind == SourceKind::Path <==> spec is Path,
        row.kind == SourceKind::Url <==> spec is Url,
        row.kind == SourceKind::Feed <==> spec is Feed,
        spec matches SourceSpec::Path { root, includes, exclude } ==> root@ == (match row.root {
            Some(r) => r@,
            None => Seq::empty(),
        }) && includes@ == row.includes@ && exclude@ == row.exclude@,
        spec matches SourceSpec::Url { url, refresh_interval_secs } ==> url@ == (match row.url {
            Some(u) => u@,
            None => Seq::empty(),
        }) && refresh_interval_secs == refresh_secs(optional_text(row.refresh)),
        spec matches SourceSpec::Feed {
            url,
            max_entries,
            fetch_full_content,
            refresh_interval_secs,
        } ==> url@ == (match row.url {
            Some(u) => u@,
            None => Seq::empty(),
        }) && refresh_interval_secs == refresh_secs(optional_text(row.refresh)) && max_entries
            == read_feed_config(optional_text(row.config_json)).max_entries && fetch_full_content
            == read_feed_config(optional_text(row.config_json)).fetch_full_content,
{
}

/// An interval is the seconds of its text, where these can be counted.
pub proof fn law_refresh_intervals(refresh: Seq<char>)
    ensures
        refresh_secs(None) is None,
        duration_of(refresh) is Err ==> refresh_secs(Some(refresh)) is None,
        duration_of(refresh) matches Ok(n) ==> (0 <= n <= u64::MAX ==> refresh_secs(Some(refresh))
            == Some(n as u64)),
        duration_of(refresh) matches Ok(n) ==> (n > u64::MAX ==> refresh_secs(Some(refresh)) is None),
{
}

/// A file is a source of its own: its directory, or the current one where it names
/// none, and only the file. A directory is itself, with the formats that are known.
pub proof fn law_path_sources(
    parent: Option<Seq<char>>,
    name: Option<Seq<char>>,
    path: Seq<char>,
)
    ensures
        parent matches Some(p) ==> (p.len() > 0 ==> file_source(parent, name).root == p),
        parent is None ==> file_source(parent, name).root == "."@,
        parent matches Some(p) ==> (p.len() == 0 ==> file_source(parent, name).root == "."@),
        file_source(parent, name).includes.len() == 1,
        name matches Some(n) ==> file_source(parent, name).includes[0] == n,
        directory_source(path).root == path,
        directory_source(path).includes.len() == 46,
        directory_source(path).exclude.len() == 6,
        directory_source(path).exclude == file_source(parent, name).exclude,
        forall|i: int|
            0 <= i < 6 ==> #[trigger] directory_source(path).exclude[i] == DEFAULT_PATH_EXCLUDES@[i]@,
        forall|i: int|
            0 <= i < 46 ==> #[trigger] directory_source(path).includes[i] == DEFAULT_PATH_INCLUDES@[i]@,
{
}

/// Names of kinds are told apart, and any other name is refused.
pub proof fn law_unknown_kinds_are_refused(name: Seq<char>, spec: JsonView)
    requires
        name != "path"@,
        name != "url"@,
        name != "feed"@,
    ensures
        parsed_spec(name, spec) is Err,
{
    reveal_with_fuel(kind_named, 4);
}

/// Each kind parses its own specification.
pub proof fn law_kinds_parse_their_own(spec: JsonView)
    ensures
        parsed_spec("path"@, spec) == parsed_path(spec),
        parsed_spec("url"@, spec) == parsed_url(spec),
        parsed_spec("feed"@, spec) == parsed_feed_spec(spec),
{
    law_kinds_are_found_by_name(SourceKind::Path);
    law_kinds_are_found_by_name(SourceKind::Url);
    law_kinds_are_found_by_name(SourceKind::Feed);
}

/// What is said of a list that is no list of texts names its field.
pub proof fn law_refused_lists_name_their_field(spec: JsonView, field: Seq<char>)
    requires
        text_array(spec, field) is Err,
    ensures
        text_array(spec, field)->Err_0 matches ErrorView::InvalidRequest { message }
            && contains_text(message, "'"@ + field + "'"@),
{
    reveal_strlit("'");
    reveal_strlit("source spec field '");
    reveal_strlit("' contains a non-string value");
    reveal_strlit("' must be a JSON array of strings");
    let a = "source spec field '"@;
    let b = "' contains a non-string value"@;
    let c = "' must be a JSON array of strings"@;
    assert(a.last() == '\'' && b[0] == '\'' && c[0] == '\'');
    let k = a.len() - 1;
    assert((a + field + b).subrange(k, k + field.len() + 2) =~= "'"@ + field + "'"@);
    assert(occurs_at(a + field + b, "'"@ + field + "'"@, k));
    assert((a + field + c).subrange(k, k + field.len() + 2) =~= "'"@ + field + "'"@);
    assert(occurs_at(a + field + c, "'"@ + field + "'"@, k));
}

/// What a spec parses as is what comes of it: the same source, or the same error.
pub proof fn law_parsing_gives_what_is_expected(
    r: Result<ParsedSourceSpec, Error>,
    source: ParsedView,
    error: ErrorView,
)
    ensures
        parses_as(r, Ok(source)) <==> (r matches Ok(p) && p@ == source),
        parses_as(r, Err(error)) <==> (r matches Err(e) && e@ == error),
{
}

} // verus!
