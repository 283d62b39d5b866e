//! What an ingestion run can and cannot remove.

use vstd::prelude::*;

use crate::document_index::{lists, RecordView};
use crate::error::Error;
use crate::ingestor::{Enumeration, SkipReason};
use crate::pipeline::{
    after_begin, after_index, after_skip, confirmed_gone, has_room, owned, presumed_gone, reported,
    step_for, unchanged, DeletionPolicy, IndexOutcome, RunView, StepView,
};
use crate::types::Resource;

verus! {

/// The state after the documents `uris` were taken out of the index.
pub open spec fn without(s: RunView, uris: Set<Seq<char>>) -> RunView {
    RunView { index: s.index.remove_keys(uris), ..s }
}

/// The URIs that a pruning run removes: those known to be gone, and those
/// presumed gone.
pub open spec fn pruned(
    s: RunView,
    source_id: Seq<char>,
    feed: bool,
    enumeration: Enumeration,
) -> Set<Seq<char>> {
    confirmed_gone(s, source_id).union(presumed_gone(s, source_id, feed, enumeration))
}

/// The index after the documents of `uris` were taken out one by one.
pub open spec fn removed_in_turn(
    index: Map<Seq<char>, RecordView>,
    uris: Seq<Seq<char>>,
) -> Map<Seq<char>, RecordView>
    decreases uris.len(),
{
    if uris.len() == 0 {
        index
    } else {
        removed_in_turn(index, uris.drop_last()).remove(uris.last())
    }
}

/// Taking the listed documents out one by one leaves the index without exactly
/// these, in whatever order they are listed.
pub proof fn law_removals_in_any_order(
    index: Map<Seq<char>, RecordView>,
    uris: Seq<Seq<char>>,
    all: Set<Seq<char>>,
)
    requires
        lists(uris, all),
    ensures
        removed_in_turn(index, uris) == index.remove_keys(all),
{
    lemma_removed_in_turn(index, uris);
    assert(uris.to_set() =~= all);
}

/// Taking documents out one by one takes out the set of them.
pub proof fn lemma_removed_in_turn(index: Map<Seq<char>, RecordView>, uris: Seq<Seq<char>>)
    ensures
        removed_in_turn(index, uris) == index.remove_keys(uris.to_set()),
    decreases uris.len(),
{
    if uris.len() == 0 {
        assert(index.remove_keys(uris.to_set()) =~= index);
    } else {
        let front = uris.drop_last();
        lemma_removed_in_turn(index, front);
        assert(uris =~= front.push(uris.last()));
        front.lemma_push_to_set_commute(uris.last());
        assert(removed_in_turn(index, uris) =~= index.remove_keys(uris.to_set()));
    }
}

/// A run only ever removes documents of its own source.
pub proof fn law_other_sources_untouched(
    s: RunView,
    source_id: Seq<char>,
    feed: bool,
    enumeration: Enumeration,
    uri: Seq<char>,
)
    requires
        s.index.contains_key(uri),
        s.index[uri].source_id != source_id,
    ensures
        !pruned(s, source_id, feed, enumeration).contains(uri),
{
}

/// A document that was seen, and not confirmed to be gone, is never removed.
pub proof fn law_seen_documents_survive(
    s: RunView,
    source_id: Seq<char>,
    feed: bool,
    enumeration: Enumeration,
    uri: Seq<char>,
)
    requires
        s.seen.contains(uri),
        !s.gone.contains(uri),
    ensures
        !pruned(s, source_id, feed, enumeration).contains(uri),
{
}

/// From a feed, nothing is removed but what the origin confirmed to be gone.
pub proof fn law_feeds_are_not_swept(
    s: RunView,
    source_id: Seq<char>,
    enumeration: Enumeration,
)
    ensures
        pruned(s, source_id, true, enumeration) == confirmed_gone(s, source_id),
{
    assert(pruned(s, source_id, true, enumeration) =~= confirmed_gone(s, source_id));
}

/// After an incomplete enumeration nothing is removed but what the origin
/// confirmed to be gone.
pub proof fn law_incomplete_enumeration_is_not_swept(
    s: RunView,
    source_id: Seq<char>,
    feed: bool,
    enumeration: Enumeration,
)
    requires
        enumeration is Incomplete,
    ensures
        pruned(s, source_id, feed, enumeration) == confirmed_gone(s, source_id),
{
    assert(pruned(s, source_id, feed, enumeration) =~= confirmed_gone(s, source_id));
}

/// A run that saw none of the documents that its source owned when it began
/// removes nothing but what the origin confirmed to be gone, whatever is new in
/// it.
pub proof fn law_blind_run_is_not_swept(
    s: RunView,
    source_id: Seq<char>,
    feed: bool,
    enumeration: Enumeration,
)
    requires
        s.known.disjoint(s.seen),
        owned(s.index, source_id).subset_of(s.known.union(s.seen)),
    ensures
        pruned(s, source_id, feed, enumeration) == confirmed_gone(s, source_id),
{
    let confirmed = confirmed_gone(s, source_id);
    let expected = s.known.difference(s.gone);
    let swept = presumed_gone(s, source_id, feed, enumeration);
    assert(expected.intersect(s.seen) =~= Set::empty());
    assert(swept =~= Set::empty()) by {
        assert forall|u: Seq<char>| !swept.contains(u) by {
            if swept.contains(u) {
                assert(expected.contains(u));
            }
        }
    }
    assert(confirmed.union(swept) =~= confirmed);
}

/// Where a sweep is reported not to have run, it has nothing to remove and
/// nothing to count.
pub proof fn law_reported_sweep_is_empty(
    s: RunView,
    source_id: Seq<char>,
    feed: bool,
    deletion: DeletionPolicy,
    enumeration: Enumeration,
)
    requires
        reported(s, deletion, enumeration) is Some,
        owned(s.index, source_id).subset_of(s.known.union(s.seen)),
    ensures
        presumed_gone(s, source_id, feed, enumeration) == Set::<Seq<char>>::empty(),
{
    let swept = presumed_gone(s, source_id, feed, enumeration);
    assert forall|u: Seq<char>| !swept.contains(u) by {
        if swept.contains(u) {
            assert(s.known.difference(s.gone).contains(u));
            assert(s.known.difference(s.gone).intersect(s.seen) =~= Set::empty()) by {
                assert forall|v: Seq<char>| !s.known.difference(s.gone).intersect(s.seen).contains(
                    v,
                ) by {
                    assert(!s.known.intersect(s.seen).contains(v));
                }
            }
        }
    }
    assert(swept =~= Set::empty());
}

/// What the origin confirmed to be gone is removed, whatever the guards say of
/// the sweep, and for feeds too.
pub proof fn law_confirmed_gone_is_removed(
    s: RunView,
    source_id: Seq<char>,
    feed: bool,
    enumeration: Enumeration,
    uri: Seq<char>,
)
    requires
        s.index.contains_key(uri),
        s.index[uri].source_id == source_id,
        s.gone.contains(uri),
    ensures
        pruned(s, source_id, feed, enumeration).contains(uri),
{
}

/// A sweep that runs removes every document of the source that was not seen. It
/// runs where one of the documents that the source owned when the run began was
/// seen.
pub proof fn law_absent_documents_are_swept(
    s: RunView,
    source_id: Seq<char>,
    uri: Seq<char>,
    witness: Seq<char>,
)
    requires
        s.index.contains_key(uri),
        s.index[uri].source_id == source_id,
        !s.seen.contains(uri),
        s.known.contains(witness),
        s.seen.contains(witness),
        !s.gone.contains(witness),
    ensures
        pruned(s, source_id, false, Enumeration::Complete).contains(uri),
{
    assert(s.known.difference(s.gone).intersect(s.seen).contains(witness));
}

/// A resource that was indexed is skipped when it is yielded again unchanged
/// under the same policy, and indexed again when content or policy changed.
pub proof fn law_indexed_then_skipped(
    s: RunView,
    resource: Resource,
    policy_version: Seq<char>,
    chunks: usize,
    again: Resource,
    policy_again: Seq<char>,
)
    requires
        again.uri@ == resource.uri@,
    ensures
        ({
            let t = after_index(s, resource, policy_version, Ok(IndexOutcome::Written(chunks)));
            step_for(t, again, policy_again) is Skip <==> again.content_hash@
                == resource.content_hash@ && policy_again == policy_version
        }),
        ({
            let t = after_index(s, resource, policy_version, Ok(IndexOutcome::Written(chunks)));
            step_for(t, again, policy_again) matches StepView::Index { replaces } ==> replaces
                == Some(resource.id@)
        }),
{
}

/// A resource that gave no chunks, or failed, leaves the index as it was, and
/// its URI counts as seen.
pub proof fn law_nothing_written_keeps_index(
    s: RunView,
    resource: Resource,
    policy_version: Seq<char>,
    outcome: Result<IndexOutcome, Error>,
)
    requires
        outcome matches Ok(o) ==> o is Empty,
    ensures
        after_index(
            after_begin(s, resource, policy_version),
            resource,
            policy_version,
            outcome,
        ).index == s.index,
        after_index(
            after_begin(s, resource, policy_version),
            resource,
            policy_version,
            outcome,
        ).seen.contains(resource.uri@),
{
}

/// Whatever its reason, a skip keeps the index, marks the URI as seen, counts
/// the document once as seen and once by its reason.
pub proof fn law_skip_counts_once(s: RunView, uri: Seq<char>, reason: SkipReason)
    requires
        has_room(s),
    ensures
        after_skip(s, uri, reason).index == s.index,
        after_skip(s, uri, reason).seen == s.seen.insert(uri),
        after_skip(s, uri, reason).gone == s.gone,
        after_skip(s, uri, reason).result.docs_seen == s.result.docs_seen + 1,
        ({
            let r = after_skip(s, uri, reason).result;
            r.docs_skipped + r.unsupported_format_count + r.error_count == s.result.docs_skipped
                + s.result.unsupported_format_count + s.result.error_count + 1
        }),
        after_skip(s, uri, reason).skip_error_count - s.skip_error_count == after_skip(
            s,
            uri,
            reason,
        ).result.error_count - s.result.error_count,
{
}

/// Every resource that is yielded and dealt with counts once as seen, and once
/// as skipped, indexed or failed.
pub proof fn law_resource_counts_once(
    s: RunView,
    resource: Resource,
    policy_version: Seq<char>,
    outcome: Result<IndexOutcome, Error>,
)
    requires
        has_room(s),
    ensures
        ({
            let begun = after_begin(s, resource, policy_version);
            let done = if step_for(s, resource, policy_version) is Skip {
                begun
            } else {
                after_index(begun, resource, policy_version, outcome)
            };
            &&& done.result.docs_seen == s.result.docs_seen + 1
            &&& done.result.docs_skipped + done.result.docs_indexed + done.result.error_count
                == s.result.docs_skipped + s.result.docs_indexed + s.result.error_count + 1
            &&& done.next_index == s.next_index + 1
        }),
{
}

/// One more document can be counted as long as no counter is full.
pub proof fn law_room(s: RunView)
    requires
        s.result.docs_seen < u64::MAX,
        s.result.docs_skipped < u64::MAX,
        s.result.docs_indexed < u64::MAX,
        s.result.unsupported_format_count < u64::MAX,
        s.result.error_count < u64::MAX,
        s.next_index < usize::MAX,
        s.skip_error_count < usize::MAX,
    ensures
        has_room(s),
{
}

/// A source owns the documents that are recorded as its own, and those of them are
/// known to be gone that the origin confirmed.
pub proof fn law_ownership(s: RunView, source_id: Seq<char>, uri: Seq<char>)
    ensures
        owned(s.index, source_id).contains(uri) <==> s.index.contains_key(uri)
            && s.index[uri].source_id == source_id,
        confirmed_gone(s, source_id).contains(uri) <==> s.index.contains_key(uri)
            && s.index[uri].source_id == source_id && s.gone.contains(uri),
{
}

} // verus!
