//! The shape of the configuration file.

use vstd::prelude::*;
use vstd::string::*;

use crate::text::texts;

verus! {

/// The configuration file.
#[derive(Clone, Debug, PartialEq, Eq)]
pub struct RawConfig {
    /// Version of the schema.
    pub version: u32,
    /// Address of the schema, for editors.
    pub schema: Option<String>,
    pub server: ServerConfig,
    pub paths: PathsConfig,
    pub defaults: DefaultsConfig,
    pub providers: Vec<ProviderConfig>,
    pub http: HttpConfig,
}

/// The server that the daemon runs.
#[derive(Clone, Debug, PartialEq, Eq)]
pub struct ServerConfig {
    pub bind: String,
    pub port: u16,
    /// Number of workers of the job queue, at least 1.
    pub job_workers: usize,
}

/// Directories that replace those of the platform.
#[derive(Clone, Debug, PartialEq, Eq)]
pub struct PathsConfig {
    pub data: Option<String>,
    pub models: Option<String>,
    pub logs: Option<String>,
}

/// What every store inherits.
#[derive(Clone, Debug, PartialEq, Eq)]
pub struct DefaultsConfig {
    pub indexing: IndexingPolicyConfig,
}

/// How documents are indexed. A change makes a new policy version.
#[derive(Clone, Debug, PartialEq, Eq)]
pub struct IndexingPolicyConfig {
    pub chunking: ChunkingPolicy,
    pub embedding: EmbeddingPolicy,
    /// Ids of the parsers, in the order in which they are tried.
    pub parsers: Vec<String>,
}

/// How documents are cut.
#[derive(Clone, Debug, PartialEq, Eq)]
pub struct ChunkingPolicy {
    /// Presets by kind of source; of two for one kind the later one counts.
    pub preset_overrides: Vec<(String, String)>,
}

/// How chunks are embedded.
#[derive(Clone, Debug, PartialEq, Eq)]
pub struct EmbeddingPolicy {
    pub model: String,
    pub provider: String,
}

/// A provider of embeddings.
#[derive(Clone, Debug, PartialEq, Eq)]
pub struct ProviderConfig {
    pub name: String,
    pub kind: String,
    pub base_url: Option<String>,
    /// The environment variable that holds the key.
    pub api_key_env: Option<String>,
}

/// Outgoing requests.
#[derive(Clone, Debug, PartialEq, Eq)]
pub struct HttpConfig {
    pub user_agent: Option<String>,
    pub max_retries: u32,
    pub rate_limit: RateLimitConfig,
}

/// How often one host is asked.
#[derive(Clone, Copy, Debug, PartialEq, Eq, Structural)]
pub struct RateLimitConfig {
    /// At least 1.
    pub requests_per_second: u32,
    /// At least 1.
    pub burst: u32,
}

/// Whether `c` is the default server.
pub open spec fn is_default_server(c: ServerConfig) -> bool {
    c.bind@ == "127.0.0.1"@ && c.port == 7700 && c.job_workers == 1
}

/// Whether `c` is the default indexing policy.
pub open spec fn is_default_indexing(c: IndexingPolicyConfig) -> bool {
    &&& c.chunking.preset_overrides@ == Seq::<(String, String)>::empty()
    &&& c.embedding.model@ == "pplx-embed-context-v1-0.6b"@
    &&& c.embedding.provider@ == "local"@
    &&& texts(c.parsers@) == default_parsers()
}

/// Whether `c` is the default policy for outgoing requests.
pub open spec fn is_default_http(c: HttpConfig) -> bool {
    c.user_agent is None && c.max_retries == 3 && c.rate_limit == (RateLimitConfig {
        requests_per_second: 1,
        burst: 4,
    })
}

/// The parsers that are tried by default, in order.
pub open spec fn default_parsers() -> Seq<Seq<char>> {
    seq!["pdf"@, "epub"@, "office"@, "html"@, "markdown"@, "plaintext"@]
}

impl Default for ServerConfig {
    fn default() -> (r: ServerConfig)
        ensures
            is_default_server(r),
    {
        ServerConfig { bind: default_bind(), port: default_port(), job_workers: default_job_workers() }
    }
}

/// The address to bind by default: this machine only.
pub fn default_bind() -> (r: String)
    ensures
        r@ == "127.0.0.1"@,
{
    "127.0.0.1".to_owned()
}

/// The port to bind by default.
pub fn default_port() -> (r: u16)
    ensures
        r == 7700,
{
    7700
}

/// The number of workers by default.
pub fn default_job_workers() -> (r: usize)
    ensures
        r == 1,
{
    1
}

impl Default for PathsConfig {
    fn default() -> (r: PathsConfig)
        ensures
            r == (PathsConfig { data: None, models: None, logs: None }),
    {
        PathsConfig { data: None, models: None, logs: None }
    }
}

impl Default for DefaultsConfig {
    fn default() -> (r: DefaultsConfig)
        ensures
            is_default_indexing(r.indexing),
    {
        DefaultsConfig { indexing: IndexingPolicyConfig::default() }
    }
}

impl Default for IndexingPolicyConfig {
    fn default() -> (r: IndexingPolicyConfig)
        ensures
            is_default_indexing(r),
    {
        IndexingPolicyConfig {
            chunking: ChunkingPolicy::default(),
            embedding: EmbeddingPolicy::default(),
            parsers: default_parser_ids(),
        }
    }
}

/// The parsers that are tried by default, in order.
pub fn default_parser_ids() -> (r: Vec<String>)
    ensures
        texts(r@) == default_parsers(),
{
    let mut out: Vec<String> = Vec::new();
    out.push("pdf".to_owned());
    out.push("epub".to_owned());
    out.push("office".to_owned());
    out.push("html".to_owned());
    out.push("markdown".to_owned());
    out.push("plaintext".to_owned());
    proof {
        assert(texts(out@) =~= default_parsers());
    }
    out
}

impl Default for ChunkingPolicy {
    fn default() -> (r: ChunkingPolicy)
        ensures
            r.preset_overrides@ == Seq::<(String, String)>::empty(),
    {
        ChunkingPolicy { preset_overrides: Vec::new() }
    }
}

impl Default for EmbeddingPolicy {
    fn default() -> (r: EmbeddingPolicy)
        ensures
            r.model@ == "pplx-embed-context-v1-0.6b"@,
            r.provider@ == "local"@,
    {
        EmbeddingPolicy { model: default_embedding_model(), provider: default_embedding_provider() }
    }
}

/// The model by default.
pub fn default_embedding_model() -> (r: String)
    ensures
        r@ == "pplx-embed-context-v1-0.6b"@,
{
    "pplx-embed-context-v1-0.6b".to_owned()
}

/// The provider by default.
pub fn default_embedding_provider() -> (r: String)
    ensures
        r@ == "local"@,
{
    "local".to_owned()
}

impl Default for HttpConfig {
    fn default() -> (r: HttpConfig)
        ensures
            is_default_http(r),
    {
        HttpConfig {
            user_agent: None,
            max_retries: default_max_retries(),
            rate_limit: RateLimitConfig::default(),
        }
    }
}

/// The number of retries by default.
pub fn default_max_retries() -> (r: u32)
    ensures
        r == 3,
{
    3
}

impl Default for RateLimitConfig {
    fn default() -> (r: RateLimitConfig)
        ensures
            r == (RateLimitConfig { requests_per_second: 1, burst: 4 }),
    {
        RateLimitConfig {
            requests_per_second: default_requests_per_second(),
            burst: default_burst(),
        }
    }
}

/// The requests per second to one host by default.
pub fn default_requests_per_second() -> (r: u32)
    ensures
        r == 1,
{
    1
}

/// The burst of requests to one host by default.
pub fn default_burst() -> (r: u32)
    ensures
        r == 4,
{
    4
}

impl Default for RawConfig {
    fn default() -> (r: RawConfig)
        ensures
            r.version == 1,
            r.schema is None,
            is_default_server(r.server),
            r.paths == (PathsConfig { data: None, models: None, logs: None }),
            is_default_indexing(r.defaults.indexing),
            r.providers@ == Seq::<ProviderConfig>::empty(),
            is_default_http(r.http),
    {
        RawConfig {
            version: 1,
            schema: None,
            server: ServerConfig::default(),
            paths: PathsConfig::default(),
            defaults: DefaultsConfig::default(),
            providers: Vec::new(),
            http: HttpConfig::default(),
        }
    }
}

} // verus!
