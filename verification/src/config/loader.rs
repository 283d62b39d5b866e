//! Checking a configuration, and finding the files it speaks of.

use vstd::prelude::*;
use vstd::string::*;
use vstd::utf8::*;

use crate::config::schema::{
    default_parser_ids, default_parsers, DefaultsConfig, IndexingPolicyConfig, RawConfig,
};
use crate::error::{fails_with, Error, ErrorView};
use crate::text_laws::contains_text;
use crate::text::{
    chars_of, decimal, find_from, found, lemma_found, occurs_at, same_text, stands_at, text_of, texts,
    to_decimal,
};

verus! {

// ---------------------------------------------------------------------------
// Paths
// ---------------------------------------------------------------------------

/// `base` followed by `name`, one slash between them; an absolute `name` stands
/// for itself.
pub open spec fn joined_path(base: Seq<char>, name: Seq<char>) -> Seq<char> {
    if name.len() > 0 && name[0] == '/' {
        name
    } else if base.len() == 0 || base.last() == '/' {
        base + name
    } else {
        base.push('/') + name
    }
}

/// `base` followed by `name`.
pub fn join_path(base: &str, name: &str) -> (r: String)
    ensures
        r@ == joined_path(base@, name@),
{
    let b = chars_of(base);
    let n = chars_of(name);
    if n.len() > 0 && n[0] == '/' {
        return name.to_owned();
    }
    let mut out = base.to_owned();
    if b.len() > 0 && b[b.len() - 1] != '/' {
        out.push('/');
    }
    out.append(name);
    out
}

/// Overrides given when the configuration is loaded.
#[derive(Clone, Debug, PartialEq, Eq)]
pub struct LoadOptions {
    pub config_path: Option<String>,
    pub data_dir: Option<String>,
    pub models_dir: Option<String>,
    pub logs_dir: Option<String>,
}

impl Default for LoadOptions {
    fn default() -> (r: LoadOptions)
        ensures
            r == (LoadOptions {
                config_path: None,
                data_dir: None,
                models_dir: None,
                logs_dir: None,
            }),
    {
        LoadOptions { config_path: None, data_dir: None, models_dir: None, logs_dir: None }
    }
}

/// Where the platform keeps things.
#[derive(Clone, Debug, PartialEq, Eq)]
pub struct PlatformPaths {
    pub config_file: String,
    pub data_dir: String,
    pub models_dir: String,
    pub logs_dir: String,
}

/// Where things are kept.
#[derive(Clone, Debug, PartialEq, Eq)]
pub struct ResolvedPaths {
    pub config_file: String,
    pub data_dir: String,
    pub models_dir: String,
    pub logs_dir: String,
}

impl ResolvedPaths {
    /// The socket of the daemon.
    pub fn socket_path(&self) -> (r: String)
        ensures
            r@ == joined_path(self.data_dir@, "daemon.sock"@),
    {
        join_path(self.data_dir.as_str(), "daemon.sock")
    }

    /// The file in which the daemon leaves its address.
    pub fn url_path(&self) -> (r: String)
        ensures
            r@ == joined_path(self.data_dir@, "daemon.url"@),
    {
        join_path(self.data_dir.as_str(), "daemon.url")
    }

    /// The database.
    pub fn db_path(&self) -> (r: String)
        ensures
            r@ == joined_path(self.data_dir@, "localdb.db"@),
    {
        join_path(self.data_dir.as_str(), "localdb.db")
    }
}

/// A configuration that was loaded, and where things are kept.
#[derive(Clone, Debug, PartialEq, Eq)]
pub struct ConfigLoader {
    pub config: RawConfig,
    pub paths: ResolvedPaths,
}

/// The configuration file: the one given, otherwise that of the environment,
/// otherwise that of the platform.
pub fn resolve_config_path(
    options: &LoadOptions,
    env_config_path: Option<&str>,
    platform: Option<&PlatformPaths>,
) -> (r: Result<String, Error>)
    ensures
        match (options.config_path, env_config_path, platform) {
            (Some(p), _, _) => r == Ok::<String, Error>(p),
            (None, Some(p), _) => r is Ok && r->Ok_0@ == p@,
            (None, None, Some(p)) => r == Ok::<String, Error>(p.config_file),
            (None, None, None) => fails_with(
                r,
                ErrorView::InvalidConfig {
                    message: "cannot determine platform config path (no home directory?)"@,
                },
            ),
        },
{
    if let Some(p) = &options.config_path {
        return Ok(p.clone());
    }
    if let Some(p) = env_config_path {
        return Ok(p.to_owned());
    }
    match platform {
        Some(p) => Ok(p.config_file.clone()),
        None => Err(
            Error::InvalidConfig {
                message: "cannot determine platform config path (no home directory?)".to_owned(),
            },
        ),
    }
}

/// `path` with a leading `~/` replaced by the home directory, where there is
/// one.
pub open spec fn expanded(path: Seq<char>, home: Option<Seq<char>>) -> Seq<char> {
    match home {
        Some(h) if occurs_at(path, "~/"@, 0) => joined_path(
            h,
            path.subrange(2, path.len() as int),
        ),
        _ => path,
    }
}

/// `path` with a leading `~/` replaced by the home directory.
pub fn expand_path(path: &str, home: Option<&str>) -> (r: String)
    ensures
        r@ == expanded(path@, crate::chunker::borrowed_text(home)),
{
    proof {
        reveal_strlit("~/");
    }
    if let Some(h) = home {
        let chars = chars_of(path);
        if stands_at(chars.as_slice(), "~/", 0) {
            let rest = text_of(chars.as_slice(), 2, chars.len());
            return join_path(h, rest.as_str());
        }
    }
    path.to_owned()
}

/// A directory: the one given, otherwise that of the configuration, otherwise
/// that of the platform.
pub open spec fn chosen_dir(
    given: Option<String>,
    configured: Option<String>,
    home: Option<Seq<char>>,
    platform: Seq<char>,
) -> Seq<char> {
    match (given, configured) {
        (Some(p), _) => p@,
        (None, Some(p)) => expanded(p@, home),
        (None, None) => platform,
    }
}

fn choose_dir(
    given: &Option<String>,
    configured: &Option<String>,
    home: Option<&str>,
    platform: &str,
) -> (r: String)
    ensures
        r@ == chosen_dir(
            *given,
            *configured,
            crate::chunker::borrowed_text(home),
            platform@,
        ),
{
    if let Some(p) = given {
        return p.clone();
    }
    match configured {
        Some(p) => expand_path(p.as_str(), home),
        None => platform.to_owned(),
    }
}

/// Where things are kept, once overrides are applied.
pub fn resolve_paths(
    config: &RawConfig,
    config_path: &str,
    options: &LoadOptions,
    platform: Option<&PlatformPaths>,
    home: Option<&str>,
) -> (r: Result<ResolvedPaths, Error>)
    ensures
        platform is None ==> fails_with(
            r,
            ErrorView::InvalidConfig { message: "cannot determine platform paths"@ },
        ),
        platform is Some ==> r is Ok,
        r matches Ok(paths) ==> ({
            let h = crate::chunker::borrowed_text(home);
            &&& paths.config_file@ == config_path@
            &&& paths.data_dir@ == chosen_dir(
                options.data_dir,
                config.paths.data,
                h,
                platform->0.data_dir@,
            )
            &&& paths.models_dir@ == chosen_dir(
                options.models_dir,
                config.paths.models,
                h,
                platform->0.models_dir@,
            )
            &&& paths.logs_dir@ == chosen_dir(
                options.logs_dir,
                config.paths.logs,
                h,
                platform->0.logs_dir@,
            )
        }),
{
    let p = match platform {
        Some(p) => p,
        None => {
            return Err(
                Error::InvalidConfig { message: "cannot determine platform paths".to_owned() },
            );
        },
    };
    Ok(
        ResolvedPaths {
            config_file: config_path.to_owned(),
            data_dir: choose_dir(
                &options.data_dir,
                &config.paths.data,
                home,
                p.data_dir.as_str(),
            ),
            models_dir: choose_dir(
                &options.models_dir,
                &config.paths.models,
                home,
                p.models_dir.as_str(),
            ),
            logs_dir: choose_dir(
                &options.logs_dir,
                &config.paths.logs,
                home,
                p.logs_dir.as_str(),
            ),
        },
    )
}

/// The files of the layout that is no longer read, below the data directory:
/// the runtime state and the stores.
pub fn legacy_paths(data_dir: &str) -> (r: (String, String))
    ensures
        r.0@ == joined_path(data_dir@, "runtime-state.db"@),
        r.1@ == joined_path(data_dir@, "stores"@),
{
    (join_path(data_dir, "runtime-state.db"), join_path(data_dir, "stores"))
}

/// What is said of a data directory in the layout that is no longer read.
pub open spec fn legacy_message(data_dir: Seq<char>) -> Seq<char> {
    "data dir '"@ + data_dir + "' contains a legacy layout from before v0.1.0 ("@ + joined_path(
        data_dir,
        "runtime-state.db"@,
    ) + ", "@ + joined_path(data_dir, "stores"@)
        + "). There is no migration path; remove the legacy files and re-add stores with `localdb store add` and `localdb source add`."@
}

/// Refuses a data directory in which either of [`legacy_paths`] exists.
pub fn refuse_legacy_layout(
    data_dir: &str,
    runtime_db_exists: bool,
    stores_dir_exists: bool,
) -> (r: Result<(), Error>)
    ensures
        runtime_db_exists || stores_dir_exists ==> fails_with(
            r,
            ErrorView::InvalidConfig { message: legacy_message(data_dir@) },
        ),
        !(runtime_db_exists || stores_dir_exists) ==> r == Ok::<(), Error>(()),
{
    if runtime_db_exists || stores_dir_exists {
        let (runtime_db, stores_dir) = legacy_paths(data_dir);
        let mut message = "data dir '".to_owned();
        message.append(data_dir);
        message.append("' contains a legacy layout from before v0.1.0 (");
        message.append(runtime_db.as_str());
        message.append(", ");
        message.append(stores_dir.as_str());
        message.append(
            "). There is no migration path; remove the legacy files and re-add stores with `localdb store add` and `localdb source add`.",
        );
        return Err(Error::InvalidConfig { message });
    }
    Ok(())
}

// ---------------------------------------------------------------------------
// Validation
// ---------------------------------------------------------------------------

/// Whether a byte may stand in the value of an HTTP header.
pub open spec fn is_header_byte(b: u8) -> bool {
    (b >= 32 && b != 127) || b == 9
}

/// Whether a text may be the value of an HTTP header.
pub open spec fn is_header_value(text: Seq<char>) -> bool {
    forall|i: int| 0 <= i < encode_utf8(text).len() ==> is_header_byte(#[trigger] encode_utf8(text)[i])
}

/// `http::HeaderValue::from_str`: succeeds where every byte is visible, a space,
/// a tab or above 127.
#[verifier::external_body]
fn header_value_is_valid(text: &str) -> (r: bool)
    ensures
        r == is_header_value(text@),
{
    http::HeaderValue::from_str(text).is_ok()
}

/// A text in quotes with its control characters escaped, as `std` writes it for
/// debugging.
pub uninterp spec fn debug_text(text: Seq<char>) -> Seq<char>;

/// `str`'s `Debug`: the text in quotes, escaped. It depends on the text alone.
#[verifier::external_body]
fn quoted(text: &str) -> (r: String)
    ensures
        r@ == debug_text(text@),
{
    format!("{text:?}")
}

/// Whether `id` is the id of a parser.
pub open spec fn is_parser_id(id: Seq<char>) -> bool {
    default_parsers().contains(id)
}

/// The first of `ids`, from place `from` on, that is no parser's.
pub open spec fn unknown_parser(ids: Seq<Seq<char>>, from: int) -> Option<Seq<char>>
    decreases ids.len() - from,
{
    if from < 0 || from >= ids.len() {
        None
    } else if !is_parser_id(ids[from]) {
        Some(ids[from])
    } else {
        unknown_parser(ids, from + 1)
    }
}

/// Whether `id` is the id of a parser.
fn parser_is_known(id: &str) -> (r: bool)
    ensures
        r == is_parser_id(id@),
{
    let known = default_parser_ids();
    let n: usize = known.len();
    let mut i: usize = 0;
    while i < n
        invariant
            0 <= i <= n,
            n == known@.len(),
            texts(known@) == default_parsers(),
            forall|k: int| 0 <= k < i ==> #[trigger] texts(known@)[k] != id@,
        decreases n - i,
    {
        proof {
            assert(texts(known@)[i as int] == known@[i as int]@);
        }
        if same_text(known[i].as_str(), id) {
            return true;
        }
        i += 1;
    }
    false
}

/// The place of the first of `ids` that is no parser's.
fn find_unknown_parser(ids: &Vec<String>) -> (r: Option<usize>)
    ensures
        match r {
            Some(i) => i < ids@.len() && unknown_parser(texts(ids@), 0) == Some(ids@[i as int]@),
            None => unknown_parser(texts(ids@), 0) is None,
        },
{
    let n: usize = ids.len();
    let mut i: usize = 0;
    while i < n
        invariant
            0 <= i <= n,
            n == ids@.len(),
            unknown_parser(texts(ids@), 0) == unknown_parser(texts(ids@), i as int),
        decreases n - i,
    {
        if !parser_is_known(ids[i].as_str()) {
            return Some(i);
        }
        i += 1;
    }
    None
}

/// What is wrong with a configuration: the first of its rules that it breaks.
pub open spec fn config_complaint(config: RawConfig) -> Option<Seq<char>> {
    if config.version != 1 {
        Some(
            "unsupported config version "@ + decimal(config.version as int)
                + "; only version 1 is supported. Hint: add `version: 1` at the top of your config file."@,
        )
    } else if config.server.job_workers < 1 {
        Some("server.job_workers must be greater than zero"@)
    } else if config.http.rate_limit.requests_per_second < 1 {
        Some("http.rate_limit.requests_per_second must be greater than zero"@)
    } else if config.http.rate_limit.burst < 1 {
        Some("http.rate_limit.burst must be greater than zero"@)
    } else {
        match config.http.user_agent {
            Some(agent) if !is_header_value(agent@) => Some(
                "http.user_agent "@ + debug_text(agent@) + " is not a valid HTTP header value"@,
            ),
            _ => match unknown_parser(texts(config.defaults.indexing.parsers@), 0) {
                Some(id) => Some(
                    "defaults.indexing.parsers contains the unknown parser id '"@ + id + "'"@,
                ),
                None => None,
            },
        }
    }
}

/// Checks a configuration against its rules.
pub fn validate_config(config: &RawConfig) -> (r: Result<(), Error>)
    ensures
        match config_complaint(*config) {
            Some(message) => fails_with(r, ErrorView::InvalidConfig { message }),
            None => r == Ok::<(), Error>(()),
        },
{
    if config.version != 1 {
        let mut message = "unsupported config version ".to_owned();
        let version = to_decimal(config.version as u64);
        message.append(version.as_str());
        message.append(
            "; only version 1 is supported. Hint: add `version: 1` at the top of your config file.",
        );
        return Err(Error::InvalidConfig { message });
    }
    if config.server.job_workers < 1 {
        let message = "server.job_workers must be greater than zero".to_owned();
        return Err(Error::InvalidConfig { message });
    }
    if config.http.rate_limit.requests_per_second < 1 {
        let message = "http.rate_limit.requests_per_second must be greater than zero".to_owned();
        return Err(Error::InvalidConfig { message });
    }
    if config.http.rate_limit.burst < 1 {
        let message = "http.rate_limit.burst must be greater than zero".to_owned();
        return Err(Error::InvalidConfig { message });
    }
    if let Some(agent) = &config.http.user_agent {
        if !header_value_is_valid(agent.as_str()) {
            let mut message = "http.user_agent ".to_owned();
            let text = quoted(agent.as_str());
            message.append(text.as_str());
            message.append(" is not a valid HTTP header value");
            return Err(Error::InvalidConfig { message });
        }
    }
    if let Some(i) = find_unknown_parser(&config.defaults.indexing.parsers) {
        let mut message = "defaults.indexing.parsers contains the unknown parser id '".to_owned();
        message.append(config.defaults.indexing.parsers[i].as_str());
        message.append("'");
        return Err(Error::InvalidConfig { message });
    }
    Ok(())
}

/// Whether `r` is `config` with an empty list of parsers filled in.
pub open spec fn completes(r: RawConfig, config: RawConfig) -> bool {
    &&& r == (RawConfig {
        defaults: DefaultsConfig {
            indexing: IndexingPolicyConfig {
                parsers: r.defaults.indexing.parsers,
                ..config.defaults.indexing
            },
        },
        ..config
    })
    &&& if config.defaults.indexing.parsers@.len() == 0 {
        texts(r.defaults.indexing.parsers@) == default_parsers()
    } else {
        r.defaults.indexing.parsers == config.defaults.indexing.parsers
    }
}

/// What is said of a file that does not parse: the parser's words, with a hint
/// where the version is missing.
pub open spec fn parse_complaint(words: Seq<char>) -> Seq<char> {
    if found(words, "missing field"@, 0) is Some && found(words, "version"@, 0) is Some {
        words + ". Hint: add `version: 1` at the top of your config file."@
    } else {
        words
    }
}

/// The configuration that a file was parsed to, where it names no parsers with
/// those that are tried by default, or what is wrong with it: the words of the
/// file's parser, or the first rule that the configuration breaks.
pub fn accept_config(parsed: Result<RawConfig, String>) -> (r: Result<RawConfig, Error>)
    ensures
        match parsed {
            Err(words) => fails_with(
                r,
                ErrorView::InvalidConfig { message: parse_complaint(words@) },
            ),
            Ok(config) => match config_complaint(config) {
                Some(message) => fails_with(r, ErrorView::InvalidConfig { message }),
                None => r is Ok && completes(r->Ok_0, config),
            },
        },
{
    match parsed {
        Ok(config) => match validate_config(&config) {
            Ok(_) => {
                let mut config = config;
                if config.defaults.indexing.parsers.len() == 0 {
                    config.defaults.indexing.parsers = default_parser_ids();
                }
                Ok(config)
            },
            Err(e) => Err(e),
        },
        Err(words) => {
            let chars = chars_of(words.as_str());
            let unversioned: bool = find_from(chars.as_slice(), "missing field", 0).is_some()
                && find_from(chars.as_slice(), "version", 0).is_some();
            let mut message = words;
            if unversioned {
                message.append(". Hint: add `version: 1` at the top of your config file.");
            }
            Err(Error::InvalidConfig { message })
        },
    }
}

/// The default configuration breaks no rule.
pub proof fn law_defaults_are_valid(config: RawConfig)
    requires
        config.version == 1,
        crate::config::schema::is_default_server(config.server),
        crate::config::schema::is_default_http(config.http),
        crate::config::schema::is_default_indexing(config.defaults.indexing),
    ensures
        config_complaint(config) is None,
{
    law_known_parsers_are_valid(default_parsers(), 0);
}

/// A list of parsers is refused if and only if one of its ids is unknown.
pub proof fn law_known_parsers_are_valid(ids: Seq<Seq<char>>, from: int)
    requires
        0 <= from <= ids.len(),
    ensures
        unknown_parser(ids, from) is None <==> forall|i: int|
            from <= i < ids.len() ==> is_parser_id(#[trigger] ids[i]),
    decreases ids.len() - from,
{
    if from < ids.len() {
        law_known_parsers_are_valid(ids, from + 1);
    }
}

/// What is accepted names at least one parser, and is accepted again as it is.
pub proof fn law_accepted_config_is_complete(r: RawConfig, config: RawConfig)
    requires
        config_complaint(config) is None,
        completes(r, config),
    ensures
        r.defaults.indexing.parsers@.len() > 0,
        config_complaint(r) is None,
        completes(r, r),
{
    if config.defaults.indexing.parsers@.len() == 0 {
        law_known_parsers_are_valid(default_parsers(), 0);
        assert(texts(r.defaults.indexing.parsers@).len() == 6);
    }
}

/// An ordinary text without control characters is a header value.
pub proof fn law_printable_text_is_header_value(text: Seq<char>)
    requires
        forall|i: int| 0 <= i < text.len() ==> ' ' <= #[trigger] text[i] <= '~',
    ensures
        is_header_value(text),
{
    assert(is_ascii_chars(text));
    is_ascii_chars_encode_utf8(text);
    assert forall|i: int| 0 <= i < encode_utf8(text).len() implies is_header_byte(
        #[trigger] encode_utf8(text)[i],
    ) by {
        assert(' ' <= text[i] <= '~');
    }
}

/// A path below a directory is the directory, one slash, and the name; an absolute
/// name stands for itself.
pub proof fn law_joined_path(base: Seq<char>, name: Seq<char>)
    ensures
        name.len() > 0 && name[0] == '/' ==> joined_path(base, name) == name,
        !(name.len() > 0 && name[0] == '/') ==> {
            let r = joined_path(base, name);
            &&& r.len() >= base.len() + name.len()
            &&& r.take(base.len() as int) == base
            &&& r.skip(r.len() - name.len()) == name
            &&& base.len() > 0 && base.last() != '/' ==> r.len() == base.len() + 1 + name.len()
                && r[base.len() as int] == '/'
            &&& base.len() == 0 || base.last() == '/' ==> r.len() == base.len() + name.len()
        },
{
    let r = joined_path(base, name);
    if !(name.len() > 0 && name[0] == '/') {
        assert(r.take(base.len() as int) =~= base);
        assert(r.skip(r.len() - name.len()) =~= name);
    }
}

/// Only a leading `~/` stands for the home directory, and only where there is one.
pub proof fn law_home_is_expanded(path: Seq<char>, home: Option<Seq<char>>)
    ensures
        home is None ==> expanded(path, home) == path,
        !(path.len() >= 2 && path[0] == '~' && path[1] == '/') ==> expanded(path, home) == path,
        home is Some && path.len() >= 2 && path[0] == '~' && path[1] == '/' ==> expanded(path, home)
            == joined_path(home->0, path.skip(2)),
{
    reveal_strlit("~/");
    if path.len() >= 2 {
        assert(path.subrange(2, path.len() as int) =~= path.skip(2));
        if path[0] == '~' && path[1] == '/' {
            assert(path.subrange(0, 2) =~= "~/"@);
        } else if path.subrange(0, 2) == "~/"@ {
            assert(path.subrange(0, 2)[0] == path[0]);
            assert(path.subrange(0, 2)[1] == path[1]);
        }
    }
}

/// What is given goes before what is configured, and that before the platform.
pub proof fn law_directories_are_chosen_in_order(
    given: Option<String>,
    configured: Option<String>,
    home: Option<Seq<char>>,
    platform: Seq<char>,
)
    ensures
        given matches Some(p) ==> chosen_dir(given, configured, home, platform) == p@,
        given is None && configured is Some ==> chosen_dir(given, configured, home, platform)
            == expanded(configured->0@, home),
        given is None && configured is None ==> chosen_dir(given, configured, home, platform)
            == platform,
{
}

/// A configuration is accepted if and only if its version is 1, it has a worker, a
/// rate and a burst of at least one, a user agent that can be sent, and no parser
/// that is unknown.
pub proof fn law_what_is_accepted(config: RawConfig)
    ensures
        config_complaint(config) is None <==> {
            &&& config.version == 1
            &&& config.server.job_workers >= 1
            &&& config.http.rate_limit.requests_per_second >= 1
            &&& config.http.rate_limit.burst >= 1
            &&& config.http.user_agent matches Some(agent) ==> forall|i: int|
                0 <= i < encode_utf8(agent@).len() ==> ((32 <= #[trigger] encode_utf8(agent@)[i]
                    && encode_utf8(agent@)[i] != 127) || encode_utf8(agent@)[i] == 9)
            &&& forall|i: int|
                0 <= i < config.defaults.indexing.parsers@.len() ==> ({
                    let id = (#[trigger] config.defaults.indexing.parsers@[i])@;
                    id == "pdf"@ || id == "epub"@ || id == "office"@ || id == "html"@ || id
                        == "markdown"@ || id == "plaintext"@
                })
        },
{
    let ids = texts(config.defaults.indexing.parsers@);
    law_known_parsers_are_valid(ids, 0);
    assert forall|id: Seq<char>| is_parser_id(id) <==> (id == "pdf"@ || id == "epub"@ || id
        == "office"@ || id == "html"@ || id == "markdown"@ || id == "plaintext"@) by {
        let all = default_parsers();
        assert(all[0] == "pdf"@ && all[1] == "epub"@ && all[2] == "office"@ && all[3] == "html"@
            && all[4] == "markdown"@ && all[5] == "plaintext"@);
    }
    if forall|i: int|
        0 <= i < config.defaults.indexing.parsers@.len() ==> is_parser_id(
            (#[trigger] config.defaults.indexing.parsers@[i])@,
        ) {
        assert forall|i: int| 0 <= i < ids.len() implies is_parser_id(#[trigger] ids[i]) by {
            assert(is_parser_id(config.defaults.indexing.parsers@[i]@));
        }
    }
    if unknown_parser(ids, 0) is None {
        assert forall|i: int| 0 <= i < config.defaults.indexing.parsers@.len() implies is_parser_id(
            (#[trigger] config.defaults.indexing.parsers@[i])@,
        ) by {
            assert(is_parser_id(ids[i]));
        }
    }
}

/// The words of the parser of a file are kept, and a hint follows them where they
/// say that the version is missing.
pub proof fn law_words_are_kept(words: Seq<char>)
    ensures
        parse_complaint(words).len() >= words.len(),
        parse_complaint(words).take(words.len() as int) == words,
        parse_complaint(words).len() > words.len() <==> contains_text(words, "missing field"@)
            && contains_text(words, "version"@),
{
    reveal_strlit(". Hint: add `version: 1` at the top of your config file.");
    lemma_found(words, "missing field"@, 0);
    lemma_found(words, "version"@, 0);
    assert(parse_complaint(words).take(words.len() as int) =~= words);
    if contains_text(words, "missing field"@) {
        let k = choose|k: int| #[trigger] occurs_at(words, "missing field"@, k);
        assert(found(words, "missing field"@, 0) is Some);
    }
    if contains_text(words, "version"@) {
        let k = choose|k: int| #[trigger] occurs_at(words, "version"@, k);
        assert(found(words, "version"@, 0) is Some);
    }
}

/// The parsers are these six, and no other id is taken.
pub proof fn law_parser_ids(id: Seq<char>)
    ensures
        is_parser_id(id) <==> id == "pdf"@ || id == "epub"@ || id == "office"@ || id == "html"@ || id
            == "markdown"@ || id == "plaintext"@,
{
    let known = default_parsers();
    assert(known[0] == "pdf"@);
    assert(known[1] == "epub"@);
    assert(known[2] == "office"@);
    assert(known[3] == "html"@);
    assert(known[4] == "markdown"@);
    assert(known[5] == "plaintext"@);
}

/// What is said of a legacy layout names the directory and both things that were
/// looked for.
pub proof fn law_legacy_message_says_what_was_found(data_dir: Seq<char>)
    ensures
        contains_text(legacy_message(data_dir), "'"@ + data_dir + "'"@),
        contains_text(legacy_message(data_dir), joined_path(data_dir, "runtime-state.db"@)),
        contains_text(legacy_message(data_dir), joined_path(data_dir, "stores"@)),
{
    let t = legacy_message(data_dir);
    let db = joined_path(data_dir, "runtime-state.db"@);
    let stores = joined_path(data_dir, "stores"@);
    reveal_strlit("data dir '");
    reveal_strlit("'");
    reveal_strlit("' contains a legacy layout from before v0.1.0 (");
    reveal_strlit(", ");
    let a = "data dir '"@.len() as int;
    let b = a + data_dir.len() + "' contains a legacy layout from before v0.1.0 ("@.len();
    let c = b + db.len() + ", "@.len();
    assert(t.subrange(a - 1, a + data_dir.len() + 1) =~= "'"@ + data_dir + "'"@);
    assert(occurs_at(t, "'"@ + data_dir + "'"@, a - 1));
    assert(t.subrange(b, b + db.len()) =~= db);
    assert(occurs_at(t, db, b));
    assert(t.subrange(c, c + stores.len()) =~= stores);
    assert(occurs_at(t, stores, c));
}

} // verus!
