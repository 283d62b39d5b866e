//! The error taxonomy shared by every surface.
//!
//! One enum, which each surface maps mechanically. The codes are stable.

use vstd::prelude::*;
use vstd::string::*;

use crate::text::same_text;

verus! {

/// Everything that can go wrong.
#[derive(Clone, Debug, PartialEq, Eq)]
pub enum Error {
    /// No store has this id.
    StoreNotFound { id: String },
    /// No source has this id.
    SourceNotFound { id: String },
    /// No resource has this id.
    ResourceNotFound { id: String },
    /// No job has this id.
    JobNotFound { id: String },
    /// The runtime-state database is locked by another writer.
    RuntimeStateLocked,
    /// The daemon is already running.
    DaemonRunning,
    /// The daemon does not answer.
    DaemonUnreachable,
    /// The configuration is invalid.
    InvalidConfig { message: String },
    /// The request is invalid.
    InvalidRequest { message: String },
    /// The document format is not supported.
    UnsupportedFormat { format: String },
    /// A document of a supported format could not be read.
    ExtractionFailed { format: String, reason: String },
    /// An external provider does not answer.
    ProviderUnavailable { message: String },
    /// A model is not installed.
    ModelMissing { message: String },
    /// The scope is being indexed already.
    IndexInProgress,
    /// The job was cancelled.
    JobCancelled,
    /// The job has ended and cannot be cancelled.
    JobAlreadyTerminal,
    /// A defect, with an id that finds it in the logs.
    Internal { message: String, correlation_id: String },
    /// A provider refused the request for now.
    RateLimited { message: String },
}

/// The mathematical value of an [`Error`].
#[verifier::ext_equal]
pub enum ErrorView {
    StoreNotFound { id: Seq<char> },
    SourceNotFound { id: Seq<char> },
    ResourceNotFound { id: Seq<char> },
    JobNotFound { id: Seq<char> },
    RuntimeStateLocked,
    DaemonRunning,
    DaemonUnreachable,
    InvalidConfig { message: Seq<char> },
    InvalidRequest { message: Seq<char> },
    UnsupportedFormat { format: Seq<char> },
    ExtractionFailed { format: Seq<char>, reason: Seq<char> },
    ProviderUnavailable { message: Seq<char> },
    ModelMissing { message: Seq<char> },
    IndexInProgress,
    JobCancelled,
    JobAlreadyTerminal,
    Internal { message: Seq<char>, correlation_id: Seq<char> },
    RateLimited { message: Seq<char> },
}

impl View for Error {
    type V = ErrorView;

    open spec fn view(&self) -> ErrorView {
        match self {
            Error::StoreNotFound { id } => ErrorView::StoreNotFound { id: id@ },
            Error::SourceNotFound { id } => ErrorView::SourceNotFound { id: id@ },
            Error::ResourceNotFound { id } => ErrorView::ResourceNotFound { id: id@ },
            Error::JobNotFound { id } => ErrorView::JobNotFound { id: id@ },
            Error::RuntimeStateLocked => ErrorView::RuntimeStateLocked,
            Error::DaemonRunning => ErrorView::DaemonRunning,
            Error::DaemonUnreachable => ErrorView::DaemonUnreachable,
            Error::InvalidConfig { message } => ErrorView::InvalidConfig { message: message@ },
            Error::InvalidRequest { message } => ErrorView::InvalidRequest { message: message@ },
            Error::UnsupportedFormat { format } => ErrorView::UnsupportedFormat { format: format@ },
            Error::ExtractionFailed { format, reason } => ErrorView::ExtractionFailed { format: format@, reason: reason@ },
            Error::ProviderUnavailable { message } => ErrorView::ProviderUnavailable { message: message@ },
            Error::ModelMissing { message } => ErrorView::ModelMissing { message: message@ },
            Error::IndexInProgress => ErrorView::IndexInProgress,
            Error::JobCancelled => ErrorView::JobCancelled,
            Error::JobAlreadyTerminal => ErrorView::JobAlreadyTerminal,
            Error::Internal { message, correlation_id } => ErrorView::Internal { message: message@, correlation_id: correlation_id@ },
            Error::RateLimited { message } => ErrorView::RateLimited { message: message@ },
        }
    }
}

/// The stable code of an error.
pub open spec fn error_code(e: ErrorView) -> Seq<char> {
    match e {
        ErrorView::StoreNotFound { .. } => "store_not_found"@,
        ErrorView::SourceNotFound { .. } => "source_not_found"@,
        ErrorView::ResourceNotFound { .. } => "resource_not_found"@,
        ErrorView::JobNotFound { .. } => "job_not_found"@,
        ErrorView::RuntimeStateLocked => "runtime_state_locked"@,
        ErrorView::DaemonRunning => "daemon_running"@,
        ErrorView::DaemonUnreachable => "daemon_unreachable"@,
        ErrorView::InvalidConfig { .. } => "invalid_config"@,
        ErrorView::InvalidRequest { .. } => "invalid_request"@,
        ErrorView::UnsupportedFormat { .. } => "unsupported_format"@,
        ErrorView::ExtractionFailed { .. } => "extraction_failed"@,
        ErrorView::ProviderUnavailable { .. } => "provider_unavailable"@,
        ErrorView::ModelMissing { .. } => "model_missing"@,
        ErrorView::IndexInProgress => "index_in_progress"@,
        ErrorView::JobCancelled => "job_cancelled"@,
        ErrorView::JobAlreadyTerminal => "job_already_terminal"@,
        ErrorView::Internal { .. } => "internal"@,
        ErrorView::RateLimited { .. } => "rate_limited"@,
    }
}

/// The message that an error is rebuilt from, where one text is enough.
pub open spec fn bare_message(e: ErrorView) -> Option<Seq<char>> {
    match e {
        ErrorView::StoreNotFound { id } => Some(id),
        ErrorView::SourceNotFound { id } => Some(id),
        ErrorView::ResourceNotFound { id } => Some(id),
        ErrorView::JobNotFound { id } => Some(id),
        ErrorView::InvalidConfig { message } => Some(message),
        ErrorView::InvalidRequest { message } => Some(message),
        ErrorView::ProviderUnavailable { message } => Some(message),
        ErrorView::ModelMissing { message } => Some(message),
        ErrorView::RateLimited { message } => Some(message),
        _ => None,
    }
}

/// The error that a code and a message stand for.
pub open spec fn decoded(code: Seq<char>, message: Seq<char>) -> Option<ErrorView> {
    if code == "store_not_found"@ {
        Some(ErrorView::StoreNotFound { id: message })
    } else if code == "source_not_found"@ {
        Some(ErrorView::SourceNotFound { id: message })
    } else if code == "resource_not_found"@ {
        Some(ErrorView::ResourceNotFound { id: message })
    } else if code == "document_not_found"@ {
        Some(ErrorView::ResourceNotFound { id: message })
    } else if code == "job_not_found"@ {
        Some(ErrorView::JobNotFound { id: message })
    } else if code == "runtime_state_locked"@ {
        Some(ErrorView::RuntimeStateLocked)
    } else if code == "daemon_running"@ {
        Some(ErrorView::DaemonRunning)
    } else if code == "daemon_unreachable"@ {
        Some(ErrorView::DaemonUnreachable)
    } else if code == "invalid_config"@ {
        Some(ErrorView::InvalidConfig { message })
    } else if code == "invalid_request"@ {
        Some(ErrorView::InvalidRequest { message })
    } else if code == "provider_unavailable"@ {
        Some(ErrorView::ProviderUnavailable { message })
    } else if code == "model_missing"@ {
        Some(ErrorView::ModelMissing { message })
    } else if code == "index_in_progress"@ {
        Some(ErrorView::IndexInProgress)
    } else if code == "job_cancelled"@ {
        Some(ErrorView::JobCancelled)
    } else if code == "job_already_terminal"@ {
        Some(ErrorView::JobAlreadyTerminal)
    } else if code == "rate_limited"@ {
        Some(ErrorView::RateLimited { message })
    } else {
        None
    }
}

/// The exit code of an error.
pub open spec fn exit_code_of(e: ErrorView) -> i32 {
    match e {
        ErrorView::StoreNotFound { .. } => 3,
        ErrorView::SourceNotFound { .. } => 3,
        ErrorView::ResourceNotFound { .. } => 3,
        ErrorView::JobNotFound { .. } => 3,
        ErrorView::RuntimeStateLocked => 4,
        ErrorView::DaemonRunning => 4,
        ErrorView::DaemonUnreachable => 5,
        ErrorView::InvalidConfig { .. } => 2,
        ErrorView::InvalidRequest { .. } => 2,
        ErrorView::UnsupportedFormat { .. } => 2,
        ErrorView::ExtractionFailed { .. } => 2,
        ErrorView::ProviderUnavailable { .. } => 5,
        ErrorView::ModelMissing { .. } => 5,
        ErrorView::IndexInProgress => 4,
        ErrorView::JobCancelled => 4,
        ErrorView::JobAlreadyTerminal => 4,
        ErrorView::Internal { .. } => 1,
        ErrorView::RateLimited { .. } => 5,
    }
}

/// What an error says to a human reader.
pub open spec fn error_text(e: ErrorView) -> Seq<char> {
    match e {
        ErrorView::StoreNotFound { id } => "store not found: "@ + id,
        ErrorView::SourceNotFound { id } => "source not found: "@ + id,
        ErrorView::ResourceNotFound { id } => "resource not found: "@ + id,
        ErrorView::JobNotFound { id } => "job not found: "@ + id,
        ErrorView::RuntimeStateLocked => "runtime-state database write lock could not be acquired within the busy timeout; try again shortly"@,
        ErrorView::DaemonRunning => "daemon is already running"@,
        ErrorView::DaemonUnreachable => "daemon is unreachable"@,
        ErrorView::InvalidConfig { message } => "invalid config: "@ + message,
        ErrorView::InvalidRequest { message } => "invalid request: "@ + message,
        ErrorView::UnsupportedFormat { format } => "unsupported format: "@ + format,
        ErrorView::ExtractionFailed { format, reason } => "extraction failed for "@ + format + ": "@
            + reason,
        ErrorView::ProviderUnavailable { message } => "provider unavailable: "@ + message,
        ErrorView::ModelMissing { message } => "model missing: "@ + message,
        ErrorView::IndexInProgress => "index already in progress for this scope"@,
        ErrorView::JobCancelled => "job was cancelled"@,
        ErrorView::JobAlreadyTerminal => "job already reached a terminal state; cannot cancel"@,
        ErrorView::Internal { message, correlation_id } => "internal error (correlation_id="@
            + correlation_id + "): "@ + message,
        ErrorView::RateLimited { message } => "rate limited: "@ + message,
    }
}

/// Whether `r` is the error `e`.
pub open spec fn fails_with<T>(r: Result<T, Error>, e: ErrorView) -> bool {
    match r {
        Err(x) => x@ == e,
        Ok(_) => false,
    }
}

/// `prefix` followed by `rest`.
fn prefixed(prefix: &str, rest: &str) -> (r: String)
    ensures
        r@ == prefix@ + rest@,
{
    let mut out = prefix.to_owned();
    out.append(rest);
    out
}

impl Error {
    /// The stable code of this error.
    pub fn code(&self) -> (r: &'static str)
        ensures
            r@ == error_code(self@),
    {
        match self {
            Error::StoreNotFound { .. } => "store_not_found",
            Error::SourceNotFound { .. } => "source_not_found",
            Error::ResourceNotFound { .. } => "resource_not_found",
            Error::JobNotFound { .. } => "job_not_found",
            Error::RuntimeStateLocked => "runtime_state_locked",
            Error::DaemonRunning => "daemon_running",
            Error::DaemonUnreachable => "daemon_unreachable",
            Error::InvalidConfig { .. } => "invalid_config",
            Error::InvalidRequest { .. } => "invalid_request",
            Error::UnsupportedFormat { .. } => "unsupported_format",
            Error::ExtractionFailed { .. } => "extraction_failed",
            Error::ProviderUnavailable { .. } => "provider_unavailable",
            Error::ModelMissing { .. } => "model_missing",
            Error::IndexInProgress => "index_in_progress",
            Error::JobCancelled => "job_cancelled",
            Error::JobAlreadyTerminal => "job_already_terminal",
            Error::Internal { .. } => "internal",
            Error::RateLimited { .. } => "rate_limited",
        }
    }

    /// The error that `code` and `message` stand for. A code that is unknown,
    /// or whose error takes more than one text, gives `None`.
    pub fn from_code(code: &str, message: String) -> (r: Option<Error>)
        ensures
            r is Some == decoded(code@, message@) is Some,
            r matches Some(e) ==> decoded(code@, message@) == Some(e@),
    {
        if same_text(code, "store_not_found") {
            Some(Error::StoreNotFound { id: message })
        } else if same_text(code, "source_not_found") {
            Some(Error::SourceNotFound { id: message })
        } else if same_text(code, "resource_not_found") {
            Some(Error::ResourceNotFound { id: message })
        } else if same_text(code, "document_not_found") {
            Some(Error::ResourceNotFound { id: message })
        } else if same_text(code, "job_not_found") {
            Some(Error::JobNotFound { id: message })
        } else if same_text(code, "runtime_state_locked") {
            Some(Error::RuntimeStateLocked)
        } else if same_text(code, "daemon_running") {
            Some(Error::DaemonRunning)
        } else if same_text(code, "daemon_unreachable") {
            Some(Error::DaemonUnreachable)
        } else if same_text(code, "invalid_config") {
            Some(Error::InvalidConfig { message })
        } else if same_text(code, "invalid_request") {
            Some(Error::InvalidRequest { message })
        } else if same_text(code, "provider_unavailable") {
            Some(Error::ProviderUnavailable { message })
        } else if same_text(code, "model_missing") {
            Some(Error::ModelMissing { message })
        } else if same_text(code, "index_in_progress") {
            Some(Error::IndexInProgress)
        } else if same_text(code, "job_cancelled") {
            Some(Error::JobCancelled)
        } else if same_text(code, "job_already_terminal") {
            Some(Error::JobAlreadyTerminal)
        } else if same_text(code, "rate_limited") {
            Some(Error::RateLimited { message })
        } else {
            None
        }
    }

    /// The message that [`Error::from_code`] rebuilds this error from, without
    /// the prefix that [`Error::to_string`] adds. `None` where the error has a
    /// fixed text or more than one.
    pub fn raw_message(&self) -> (r: Option<&str>)
        ensures
            r is Some == bare_message(self@) is Some,
            r matches Some(m) ==> bare_message(self@) == Some(m@),
    {
        match self {
            Error::StoreNotFound { id } => Some(id.as_str()),
            Error::SourceNotFound { id } => Some(id.as_str()),
            Error::ResourceNotFound { id } => Some(id.as_str()),
            Error::JobNotFound { id } => Some(id.as_str()),
            Error::InvalidConfig { message } => Some(message.as_str()),
            Error::InvalidRequest { message } => Some(message.as_str()),
            Error::ProviderUnavailable { message } => Some(message.as_str()),
            Error::ModelMissing { message } => Some(message.as_str()),
            Error::RateLimited { message } => Some(message.as_str()),
            _ => None,
        }
    }

    /// The exit code a command ends with on this error.
    pub fn exit_code(&self) -> (r: i32)
        ensures
            r == exit_code_of(self@),
    {
        match self {
            Error::StoreNotFound { .. } => 3,
            Error::SourceNotFound { .. } => 3,
            Error::ResourceNotFound { .. } => 3,
            Error::JobNotFound { .. } => 3,
            Error::RuntimeStateLocked => 4,
            Error::DaemonRunning => 4,
            Error::DaemonUnreachable => 5,
            Error::InvalidConfig { .. } => 2,
            Error::InvalidRequest { .. } => 2,
            Error::UnsupportedFormat { .. } => 2,
            Error::ExtractionFailed { .. } => 2,
            Error::ProviderUnavailable { .. } => 5,
            Error::ModelMissing { .. } => 5,
            Error::IndexInProgress => 4,
            Error::JobCancelled => 4,
            Error::JobAlreadyTerminal => 4,
            Error::Internal { .. } => 1,
            Error::RateLimited { .. } => 5,
        }
    }

    /// What this error says to a human reader.
    pub fn to_string(&self) -> (r: String)
        ensures
            r@ == error_text(self@),
    {
        match self {
            Error::StoreNotFound { id } => prefixed("store not found: ", id.as_str()),
            Error::SourceNotFound { id } => prefixed("source not found: ", id.as_str()),
            Error::ResourceNotFound { id } => prefixed("resource not found: ", id.as_str()),
            Error::JobNotFound { id } => prefixed("job not found: ", id.as_str()),
            Error::RuntimeStateLocked => "runtime-state database write lock could not be acquired within the busy timeout; try again shortly".to_owned(),
            Error::DaemonRunning => "daemon is already running".to_owned(),
            Error::DaemonUnreachable => "daemon is unreachable".to_owned(),
            Error::InvalidConfig { message } => prefixed("invalid config: ", message.as_str()),
            Error::InvalidRequest { message } => prefixed("invalid request: ", message.as_str()),
            Error::UnsupportedFormat { format } => prefixed("unsupported format: ", format.as_str()),
            Error::ExtractionFailed { format, reason } => {
                let mut out = prefixed("extraction failed for ", format.as_str());
                out.append(": ");
                out.append(reason.as_str());
                out
            },
            Error::ProviderUnavailable { message } => prefixed("provider unavailable: ", message.as_str()),
            Error::ModelMissing { message } => prefixed("model missing: ", message.as_str()),
            Error::IndexInProgress => "index already in progress for this scope".to_owned(),
            Error::JobCancelled => "job was cancelled".to_owned(),
            Error::JobAlreadyTerminal => "job already reached a terminal state; cannot cancel".to_owned(),
            Error::Internal { message, correlation_id } => {
                let mut out = prefixed("internal error (correlation_id=", correlation_id.as_str());
                out.append("): ");
                out.append(message.as_str());
                out
            },
            Error::RateLimited { message } => prefixed("rate limited: ", message.as_str()),
        }
    }
}

/// The codes that [`Error::from_code`] knows are told apart by their lengths
/// and, where these agree, by one character.
proof fn lemma_codes_distinct()
    ensures
        "store_not_found"@.len() == 15,
        "source_not_found"@.len() == 16,
        "resource_not_found"@.len() == 18,
        "document_not_found"@.len() == 18,
        "job_not_found"@.len() == 13,
        "runtime_state_locked"@.len() == 20,
        "daemon_running"@.len() == 14,
        "daemon_unreachable"@.len() == 18,
        "invalid_config"@.len() == 14,
        "invalid_request"@.len() == 15,
        "provider_unavailable"@.len() == 20,
        "model_missing"@.len() == 13,
        "index_in_progress"@.len() == 17,
        "job_cancelled"@.len() == 13,
        "job_already_terminal"@.len() == 20,
        "rate_limited"@.len() == 12,
        "store_not_found"@[0] != "invalid_request"@[0],
        "resource_not_found"@[0] != "document_not_found"@[0],
        "resource_not_found"@[0] != "daemon_unreachable"@[0],
        "document_not_found"@[1] != "daemon_unreachable"@[1],
        "job_not_found"@[0] != "model_missing"@[0],
        "job_not_found"@[4] != "job_cancelled"@[4],
        "runtime_state_locked"@[0] != "provider_unavailable"@[0],
        "runtime_state_locked"@[0] != "job_already_terminal"@[0],
        "daemon_running"@[0] != "invalid_config"@[0],
        "provider_unavailable"@[0] != "job_already_terminal"@[0],
        "model_missing"@[0] != "job_cancelled"@[0],
{
    reveal_strlit("store_not_found");
    reveal_strlit("source_not_found");
    reveal_strlit("resource_not_found");
    reveal_strlit("document_not_found");
    reveal_strlit("job_not_found");
    reveal_strlit("runtime_state_locked");
    reveal_strlit("daemon_running");
    reveal_strlit("daemon_unreachable");
    reveal_strlit("invalid_config");
    reveal_strlit("invalid_request");
    reveal_strlit("provider_unavailable");
    reveal_strlit("model_missing");
    reveal_strlit("index_in_progress");
    reveal_strlit("job_cancelled");
    reveal_strlit("job_already_terminal");
    reveal_strlit("rate_limited");
}

/// An error whose message is one text, or fixed, comes back from its code and
/// its bare message.
pub proof fn law_code_round_trip(e: ErrorView, message: Seq<char>)
    requires
        !(e is Internal || e is UnsupportedFormat || e is ExtractionFailed),
        bare_message(e) matches Some(m) ==> message == m,
    ensures
        decoded(error_code(e), message) == Some(e),
{
    lemma_codes_distinct();
}

/// The codes of the errors that take more than a message, and any code that is
/// no error's, are not decoded.
pub proof fn law_other_codes_rejected(code: Seq<char>, message: Seq<char>)
    requires
        code != "document_not_found"@,
        forall|e: ErrorView|
            #![trigger error_code(e)]
            !(e is Internal || e is UnsupportedFormat || e is ExtractionFailed) ==> code
                != error_code(e),
    ensures
        decoded(code, message) is None,
{
    assert(code != error_code((ErrorView::StoreNotFound { id: message })));
    assert(code != error_code((ErrorView::SourceNotFound { id: message })));
    assert(code != error_code((ErrorView::ResourceNotFound { id: message })));
    assert(code != error_code((ErrorView::JobNotFound { id: message })));
    assert(code != error_code(ErrorView::RuntimeStateLocked));
    assert(code != error_code(ErrorView::DaemonRunning));
    assert(code != error_code(ErrorView::DaemonUnreachable));
    assert(code != error_code((ErrorView::InvalidConfig { message })));
    assert(code != error_code((ErrorView::InvalidRequest { message })));
    assert(code != error_code((ErrorView::ProviderUnavailable { message })));
    assert(code != error_code((ErrorView::ModelMissing { message })));
    assert(code != error_code(ErrorView::IndexInProgress));
    assert(code != error_code(ErrorView::JobCancelled));
    assert(code != error_code(ErrorView::JobAlreadyTerminal));
    assert(code != error_code((ErrorView::RateLimited { message })));
}

/// What an error says ends with its message, where one text is its message, and
/// says more than that.
pub proof fn law_text_ends_with_message(e: ErrorView)
    ensures
        bare_message(e) matches Some(m) ==> error_text(e).len() > m.len() && error_text(e).skip(
            error_text(e).len() - m.len(),
        ) == m,
{
    reveal_strlit("store not found: ");
    reveal_strlit("source not found: ");
    reveal_strlit("resource not found: ");
    reveal_strlit("job not found: ");
    reveal_strlit("invalid config: ");
    reveal_strlit("invalid request: ");
    reveal_strlit("provider unavailable: ");
    reveal_strlit("model missing: ");
    reveal_strlit("rate limited: ");
    if let Some(m) = bare_message(e) {
        let t = error_text(e);
        assert(t.skip(t.len() - m.len()) =~= m);
    }
}

/// What a result fails with is its error, and nothing that succeeds fails.
pub proof fn law_fails_with<T>(r: Result<T, Error>, e: ErrorView)
    ensures
        fails_with(r, e) <==> (r matches Err(x) && x@ == e),
{
}

/// The exit codes: 1 for a fault of the program, 2 for what was asked, 3 for what is
/// not there, 4 for what is busy or over, 5 for what cannot be reached.
pub proof fn law_exit_codes(e: ErrorView)
    ensures
        exit_code_of(e) == 1 <==> e is Internal,
        exit_code_of(e) == 2 <==> e is InvalidConfig || e is InvalidRequest || e is UnsupportedFormat
            || e is ExtractionFailed,
        exit_code_of(e) == 3 <==> e is StoreNotFound || e is SourceNotFound || e is ResourceNotFound
            || e is JobNotFound,
        exit_code_of(e) == 4 <==> e is RuntimeStateLocked || e is DaemonRunning
            || e is IndexInProgress || e is JobCancelled || e is JobAlreadyTerminal,
        exit_code_of(e) == 5 <==> e is DaemonUnreachable || e is ProviderUnavailable
            || e is ModelMissing || e is RateLimited,
{
}

} // verus!
