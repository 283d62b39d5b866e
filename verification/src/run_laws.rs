//! What holds of a whole ingestion run, whatever the ingestor reports.

use vstd::prelude::*;

use crate::document_index::RecordView;
use crate::error::Error;
use crate::ingestor::{Enumeration, SkipReason};
use crate::pipeline::{
    after_begin, after_index, after_skip, confirmed_gone, owned, record_of, step_for, unchanged, DeletionPolicy,
    IndexOutcome, RunView,
};
use crate::pipeline_laws::law_blind_run_is_not_swept;
use crate::progress::IngestionResult;
use crate::removals::{final_index, law_living_documents_stay};
use crate::types::Resource;

verus! {

/// What an ingestor reports. A resource comes with what became of indexing it,
/// which counts only where the run decides to index it.
pub enum Report {
    Discovered(int),
    Skipped(Seq<char>, SkipReason),
    Gone(Seq<char>),
    Yielded(Resource, Result<IndexOutcome, Error>),
}

/// The state after one report.
pub open spec fn after_report(s: RunView, policy_version: Seq<char>, report: Report) -> RunView {
    match report {
        Report::Discovered(total) => RunView { discovered_total: total, ..s },
        Report::Skipped(uri, reason) => after_skip(s, uri, reason),
        Report::Gone(uri) => RunView { gone: s.gone.insert(uri), ..s },
        Report::Yielded(resource, outcome) => {
            let begun = after_begin(s, resource, policy_version);
            if step_for(s, resource, policy_version) is Skip {
                begun
            } else {
                after_index(begun, resource, policy_version, outcome)
            }
        },
    }
}

/// The state after a run of reports.
pub open spec fn after_reports(s: RunView, policy_version: Seq<char>, reports: Seq<Report>) -> RunView
    decreases reports.len(),
{
    if reports.len() == 0 {
        s
    } else {
        after_report(
            after_reports(s, policy_version, reports.drop_last()),
            policy_version,
            reports.last(),
        )
    }
}

/// The state in which a run of a source starts.
pub open spec fn fresh(index: Map<Seq<char>, RecordView>, source_id: Seq<char>) -> RunView {
    RunView {
        index,
        result: IngestionResult::zero(),
        known: owned(index, source_id),
        seen: Set::empty(),
        gone: Set::empty(),
        discovered_total: 0,
        next_index: 0,
        skip_error_count: 0,
    }
}

/// The document that a report is about, where it says that it is there.
pub open spec fn seen_in(report: Report) -> Option<Seq<char>> {
    match report {
        Report::Skipped(uri, _) => Some(uri),
        Report::Yielded(resource, _) => Some(resource.uri@),
        _ => None,
    }
}

/// The number of documents that the reports say are there.
pub open spec fn documents_in(reports: Seq<Report>) -> int
    decreases reports.len(),
{
    if reports.len() == 0 {
        0
    } else {
        documents_in(reports.drop_last()) + if seen_in(reports.last()) is Some {
            1int
        } else {
            0
        }
    }
}

/// The number of errors among the reports.
pub open spec fn errors_in(reports: Seq<Report>) -> int
    decreases reports.len(),
{
    if reports.len() == 0 {
        0
    } else {
        errors_in(reports.drop_last()) + match reports.last() {
            Report::Skipped(_, SkipReason::Error(_)) => 1int,
            _ => 0,
        }
    }
}

/// Every document that is reported is counted once as seen, and once as indexed,
/// skipped, of an unsupported format, or failed. The errors that the ingestor
/// reports are counted as it reports them.
pub proof fn law_counters_balance(
    index: Map<Seq<char>, RecordView>,
    source_id: Seq<char>,
    policy_version: Seq<char>,
    reports: Seq<Report>,
)
    requires
        reports.len() <= u64::MAX,
    ensures
        ({
            let s = after_reports(fresh(index, source_id), policy_version, reports);
            &&& s.result.docs_seen == documents_in(reports)
            &&& s.result.docs_seen == s.result.docs_indexed + s.result.docs_skipped
                + s.result.unsupported_format_count + s.result.error_count
            &&& s.next_index == s.result.docs_seen
            &&& s.skip_error_count == errors_in(reports)
            &&& s.result.docs_deleted == 0
            &&& s.result.docs_prunable == 0
            &&& 0 <= documents_in(reports) <= reports.len()
        }),
    decreases reports.len(),
{
    if reports.len() > 0 {
        law_counters_balance(index, source_id, policy_version, reports.drop_last());
    }
}

/// The run has seen exactly the documents that are reported to be there, and
/// knows to be gone exactly those that are reported to be.
pub proof fn law_run_sees_what_is_reported(
    index: Map<Seq<char>, RecordView>,
    source_id: Seq<char>,
    policy_version: Seq<char>,
    reports: Seq<Report>,
    uri: Seq<char>,
)
    ensures
        after_reports(fresh(index, source_id), policy_version, reports).seen.contains(uri) <==> exists|i: int|
            0 <= i < reports.len() && seen_in(#[trigger] reports[i]) == Some(uri),
        after_reports(fresh(index, source_id), policy_version, reports).gone.contains(uri) <==> exists|i: int|
            0 <= i < reports.len() && #[trigger] reports[i] == Report::Gone(uri),
    decreases reports.len(),
{
    if reports.len() > 0 {
        let front = reports.drop_last();
        law_run_sees_what_is_reported(index, source_id, policy_version, front, uri);
        let now = after_reports(fresh(index, source_id), policy_version, reports);
        let last = reports.last();
        assert(reports[reports.len() - 1] == last);
        assert forall|i: int| 0 <= i < front.len() implies #[trigger] front[i] == reports[i] by {}
        if exists|i: int| 0 <= i < front.len() && seen_in(#[trigger] front[i]) == Some(uri) {
            let i = choose|i: int|
                0 <= i < front.len() && seen_in(#[trigger] front[i]) == Some(uri);
            assert(seen_in(reports[i]) == Some(uri));
        }
        if exists|i: int| 0 <= i < reports.len() && seen_in(#[trigger] reports[i]) == Some(uri) {
            let i = choose|i: int|
                0 <= i < reports.len() && seen_in(#[trigger] reports[i]) == Some(uri);
            if i < front.len() {
                assert(seen_in(front[i]) == Some(uri));
            }
        }
        if exists|i: int| 0 <= i < front.len() && #[trigger] front[i] == Report::Gone(uri) {
            let i = choose|i: int| 0 <= i < front.len() && #[trigger] front[i] == Report::Gone(uri);
            assert(reports[i] == Report::Gone(uri));
        }
        if exists|i: int| 0 <= i < reports.len() && #[trigger] reports[i] == Report::Gone(uri) {
            let i = choose|i: int|
                0 <= i < reports.len() && #[trigger] reports[i] == Report::Gone(uri);
            if i < front.len() {
                assert(front[i] == Report::Gone(uri));
            }
        }
    }
}

/// Until removal begins nothing leaves the index, and only a document that was
/// written changes there.
pub proof fn law_reports_remove_nothing(
    index: Map<Seq<char>, RecordView>,
    source_id: Seq<char>,
    policy_version: Seq<char>,
    reports: Seq<Report>,
    uri: Seq<char>,
)
    requires
        index.contains_key(uri),
    ensures
        ({
            let now = after_reports(fresh(index, source_id), policy_version, reports).index;
            &&& now.contains_key(uri)
            &&& now[uri] == index[uri] || exists|i: int|
                0 <= i < reports.len() && (#[trigger] reports[i] matches Report::Yielded(r, o)
                    && o matches Ok(IndexOutcome::Written(_)) && r.uri@ == uri && now[uri]
                    == record_of(r, policy_version))
        }),
    decreases reports.len(),
{
    if reports.len() > 0 {
        let front = reports.drop_last();
        law_reports_remove_nothing(index, source_id, policy_version, front, uri);
        let before = after_reports(fresh(index, source_id), policy_version, front).index;
        let now = after_reports(fresh(index, source_id), policy_version, reports).index;
        assert(reports[reports.len() - 1] == reports.last());
        if now[uri] == before[uri] && before[uri] != index[uri] {
            let i = choose|i: int|
                0 <= i < front.len() && (#[trigger] front[i] matches Report::Yielded(r, o)
                    && o matches Ok(IndexOutcome::Written(_)) && r.uri@ == uri && before[uri]
                    == record_of(r, policy_version));
            assert(reports[i] == front[i]);
        }
    }
}

/// A document that was indexed before the run, that the ingestor reports to be
/// there, be it unchanged, unsupported or failed, and that the origin did not
/// confirm to be gone, is in the index when the run ends, removals included.
pub proof fn law_reported_documents_survive(
    index: Map<Seq<char>, RecordView>,
    source_id: Seq<char>,
    policy_version: Seq<char>,
    reports: Seq<Report>,
    feed: bool,
    deletion: DeletionPolicy,
    enumeration: Enumeration,
    at: int,
    uri: Seq<char>,
)
    requires
        index.contains_key(uri),
        0 <= at < reports.len(),
        seen_in(reports[at]) == Some(uri),
        forall|i: int| 0 <= i < reports.len() ==> #[trigger] reports[i] != Report::Gone(uri),
    ensures
        final_index(
            after_reports(fresh(index, source_id), policy_version, reports),
            source_id,
            feed,
            deletion,
            enumeration,
        ).contains_key(uri),
{
    law_run_sees_what_is_reported(index, source_id, policy_version, reports, uri);
    law_reports_remove_nothing(index, source_id, policy_version, reports, uri);
    law_living_documents_stay(
        after_reports(fresh(index, source_id), policy_version, reports),
        source_id,
        feed,
        deletion,
        enumeration,
        uri,
    );
}

/// The run remembers what its source owned when it began, and whatever the
/// source owns later was there then or is reported to be there.
proof fn lemma_owned_is_known_or_seen(
    index: Map<Seq<char>, RecordView>,
    source_id: Seq<char>,
    policy_version: Seq<char>,
    reports: Seq<Report>,
)
    ensures
        ({
            let s = after_reports(fresh(index, source_id), policy_version, reports);
            &&& s.known == owned(index, source_id)
            &&& owned(s.index, source_id).subset_of(s.known.union(s.seen))
        }),
    decreases reports.len(),
{
    if reports.len() > 0 {
        lemma_owned_is_known_or_seen(index, source_id, policy_version, reports.drop_last());
        let before = after_reports(fresh(index, source_id), policy_version, reports.drop_last());
        let now = after_reports(fresh(index, source_id), policy_version, reports);
        assert forall|u: Seq<char>| owned(now.index, source_id).contains(u) implies now.known.union(
            now.seen,
        ).contains(u) by {
            if !now.seen.contains(u) {
                assert(owned(before.index, source_id).contains(u));
            }
        }
    }
}

/// A run to which none of the documents that its source owned is reported, as
/// when all of its files were renamed, removes none of them but those that the
/// origin confirmed to be gone.
pub proof fn law_unobserved_source_keeps_its_documents(
    index: Map<Seq<char>, RecordView>,
    source_id: Seq<char>,
    policy_version: Seq<char>,
    reports: Seq<Report>,
    feed: bool,
    deletion: DeletionPolicy,
    enumeration: Enumeration,
    uri: Seq<char>,
)
    requires
        owned(index, source_id).contains(uri),
        forall|i: int|
            0 <= i < reports.len() ==> (seen_in(#[trigger] reports[i]) matches Some(u)
                ==> !owned(index, source_id).contains(u)),
        forall|i: int| 0 <= i < reports.len() ==> #[trigger] reports[i] != Report::Gone(uri),
    ensures
        ({
            let end = final_index(
                after_reports(fresh(index, source_id), policy_version, reports),
                source_id,
                feed,
                deletion,
                enumeration,
            );
            end.contains_key(uri) && end[uri] == index[uri]
        }),
{
    let s = after_reports(fresh(index, source_id), policy_version, reports);
    lemma_owned_is_known_or_seen(index, source_id, policy_version, reports);
    assert forall|u: Seq<char>| !(s.known.contains(u) && s.seen.contains(u)) by {
        law_run_sees_what_is_reported(index, source_id, policy_version, reports, u);
    }
    law_run_sees_what_is_reported(index, source_id, policy_version, reports, uri);
    law_reports_remove_nothing(index, source_id, policy_version, reports, uri);
    law_blind_run_is_not_swept(s, source_id, feed, enumeration);
    assert(!confirmed_gone(s, source_id).contains(uri));
    if s.index[uri] != index[uri] {
        let i = choose|i: int|
            0 <= i < reports.len() && (#[trigger] reports[i] matches Report::Yielded(r, o)
                && o matches Ok(IndexOutcome::Written(_)) && r.uri@ == uri && s.index[uri]
                == record_of(r, policy_version));
        assert(seen_in(reports[i]) == Some(uri));
    }
}

/// A run that is yielded nothing but what is indexed already, with the same
/// content and under the same policy, indexes nothing and leaves the index as it
/// is.
pub proof fn law_unchanged_run_keeps_index(
    index: Map<Seq<char>, RecordView>,
    source_id: Seq<char>,
    policy_version: Seq<char>,
    reports: Seq<Report>,
)
    requires
        forall|i: int|
            0 <= i < reports.len() ==> (#[trigger] reports[i] matches Report::Yielded(r, _)
                ==> unchanged(fresh(index, source_id), r.uri@, r.content_hash@, policy_version)),
    ensures
        after_reports(fresh(index, source_id), policy_version, reports).index == index,
        after_reports(fresh(index, source_id), policy_version, reports).result.docs_indexed == 0,
        after_reports(fresh(index, source_id), policy_version, reports).result.chunks_written == 0,
    decreases reports.len(),
{
    if reports.len() > 0 {
        let front = reports.drop_last();
        assert forall|i: int| 0 <= i < front.len() implies (#[trigger] front[i] matches Report::Yielded(
            r,
            _,
        ) ==> unchanged(fresh(index, source_id), r.uri@, r.content_hash@, policy_version)) by {
            assert(front[i] == reports[i]);
        }
        law_unchanged_run_keeps_index(index, source_id, policy_version, front);
        assert(reports[reports.len() - 1] == reports.last());
    }
}

} // verus!
