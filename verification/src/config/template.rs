//! The configuration file that a new installation starts with.

use vstd::prelude::*;
use vstd::string::*;

use crate::config::jsonschema::SCHEMA_URL;
use crate::text::{replace_all, replaced};

verus! {

/// The template. `{{SCHEMA_URL}}` stands for the address of the schema.
pub const TEMPLATE: &'static str = "# yaml-language-server: $schema={{SCHEMA_URL}}
#
# Configuration of localdb. Every key except `version` is optional; what is
# commented out shows its default.

version: 1

$schema: {{SCHEMA_URL}}

# The HTTP server that the daemon runs.
server:
  bind: 127.0.0.1
  port: 7700
  # Number of workers of the job queue, at least 1.
  job_workers: 1

# Directories that replace those of the platform.
paths:
  data: ~
  models: ~
  logs: ~

# What every store inherits.
defaults:
  indexing:
    chunking:
      # Presets by kind of source: prose, code or messages.
      preset_overrides: {}
    embedding:
      model: pplx-embed-context-v1-0.6b
      provider: local
    # Parsers in the order in which they are tried.
    parsers:
      - pdf
      - epub
      - office
      - html
      - markdown
      - plaintext

# Providers of embeddings.
providers: []
#  - name: my-ollama
#    kind: openai-compatible
#    base_url: http://localhost:11434/v1
#    api_key_env: OLLAMA_KEY

# Outgoing requests.
http:
  user_agent: ~
  max_retries: 3
  rate_limit:
    requests_per_second: 1
    burst: 4
";

/// The default configuration file, with the address of the schema filled in.
pub fn render_default_config_template() -> (r: String)
    ensures
        r@ == replaced(TEMPLATE@, "{{SCHEMA_URL}}"@, SCHEMA_URL@, 0),
{
    replace_all(TEMPLATE, "{{SCHEMA_URL}}", SCHEMA_URL)
}

} // verus!
