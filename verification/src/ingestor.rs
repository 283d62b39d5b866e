//! What an ingestor is given, and what it reports.

use vstd::prelude::*;
use vstd::string::*;

use crate::json::Json;
use crate::types::IngestorKind;

verus! {

/// One field of an ingestor's configuration.
#[derive(Clone, Debug, PartialEq, Eq)]
pub struct ConfigField {
    pub key: &'static str,
    pub label: &'static str,
    pub description: &'static str,
    pub required: bool,
    pub secret: bool,
    pub field_type: ConfigFieldType,
    pub default: Option<String>,
}

/// The type of a configuration field.
#[derive(Clone, Debug, PartialEq, Eq)]
pub enum ConfigFieldType {
    String,
    Path,
    Url,
    Integer,
    Boolean,
    Choice(Vec<std::string::String>),
}

/// Why an ingestor yields no resource for a URI that still exists.
#[derive(Clone, Debug, PartialEq, Eq)]
pub enum SkipReason {
    /// Unchanged since it was last indexed.
    Unchanged,
    /// Of a format that no parser takes.
    Unsupported,
    /// Skipped for another reason.
    Other(String),
    /// It could not be processed.
    Error(String),
}

/// What an ingestor is given: the source to read, and its settings.
#[derive(Debug, PartialEq)]
pub struct IngestSource {
    pub source_id: String,
    pub store_id: String,
    pub ingestor_kind: IngestorKind,
    pub config: Json,
    /// The policy version that resources are stamped with.
    pub policy_version: String,
}

/// What is known of an earlier fetch of a URL.
#[derive(Clone, Debug, PartialEq, Eq)]
pub struct FetchMetadata {
    pub etag: Option<String>,
    pub last_modified: Option<String>,
}

impl Default for FetchMetadata {
    fn default() -> (r: FetchMetadata)
        ensures
            r == (FetchMetadata { etag: None, last_modified: None }),
    {
        FetchMetadata { etag: None, last_modified: None }
    }
}

/// The outcome of fetching a URL.
#[derive(Debug, PartialEq, Eq)]
pub enum FetchResult {
    /// The content.
    Downloaded {
        bytes: Vec<u8>,
        content_type: Option<String>,
        etag: Option<String>,
        last_modified: Option<String>,
        /// The address after redirects, where it is known.
        final_url: Option<String>,
    },
    /// Unchanged since the earlier fetch.
    NotModified,
    /// Confirmed to be gone.
    Gone,
    /// Refused by the fetcher's policy, now and later.
    Blocked,
}

/// Whether a run saw the complete current contents of its source.
#[derive(Debug, PartialEq, Eq)]
pub enum Enumeration {
    Complete,
    /// What was not seen may still exist.
    Incomplete { reason: String },
}

impl Default for Enumeration {
    fn default() -> (r: Enumeration)
        ensures
            r is Complete,
    {
        Enumeration::Complete
    }
}

impl Clone for Enumeration {
    fn clone(&self) -> (r: Enumeration)
        ensures
            r == *self,
    {
        match self {
            Enumeration::Complete => Enumeration::Complete,
            Enumeration::Incomplete { reason } => Enumeration::Incomplete {
                reason: reason.clone(),
            },
        }
    }
}

/// What an ingestor says of its own run.
#[derive(Debug)]
pub struct IngestResult {
    pub resources_produced: usize,
    pub resources_skipped: usize,
    pub errors: usize,
    pub enumeration: Enumeration,
}

impl Clone for IngestResult {
    fn clone(&self) -> (r: IngestResult)
        ensures
            r == *self,
    {
        IngestResult {
            resources_produced: self.resources_produced,
            resources_skipped: self.resources_skipped,
            errors: self.errors,
            enumeration: self.enumeration.clone(),
        }
    }
}

impl Default for IngestResult {
    fn default() -> (r: IngestResult)
        ensures
            r == (IngestResult {
                resources_produced: 0,
                resources_skipped: 0,
                errors: 0,
                enumeration: Enumeration::Complete,
            }),
    {
        IngestResult {
            resources_produced: 0,
            resources_skipped: 0,
            errors: 0,
            enumeration: Enumeration::Complete,
        }
    }
}

} // verus!
