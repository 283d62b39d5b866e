//! The end of an ingestion run: removing what is gone, one document at a time.

use vstd::prelude::*;
use vstd::string::*;

use crate::document_index::{lists, DocumentIndex, RecordView};
use crate::ingestor::Enumeration;
use crate::pipeline::{
    confirmed_gone, owned, presumed_gone, reported, DeletionPolicy, PipelineCallback, RunView,
    Suppression,
};
use crate::pipeline_laws::{
    lemma_removed_in_turn, law_removals_in_any_order, pruned, removed_in_turn, without,
};
use crate::progress::{IngestionResult, ProgressEvent, ProgressView};
use crate::text::texts;
use crate::types::Source;

verus! {

/// The state in which the sweep begins: without what is known to be gone, in a
/// run that removes.
pub open spec fn before_sweep(
    s: RunView,
    source_id: Seq<char>,
    deletion: DeletionPolicy,
) -> RunView {
    match deletion {
        DeletionPolicy::Prune => without(s, confirmed_gone(s, source_id)),
        DeletionPolicy::Retain => s,
    }
}

/// The index that a run ends with.
pub open spec fn final_index(
    s: RunView,
    source_id: Seq<char>,
    feed: bool,
    deletion: DeletionPolicy,
    enumeration: Enumeration,
) -> Map<Seq<char>, RecordView> {
    match deletion {
        DeletionPolicy::Prune => s.index.remove_keys(pruned(s, source_id, feed, enumeration)),
        DeletionPolicy::Retain => s.index,
    }
}

/// The number of documents that a run counts as prunable.
pub open spec fn prunable(
    s: RunView,
    source_id: Seq<char>,
    feed: bool,
    deletion: DeletionPolicy,
    enumeration: Enumeration,
) -> int {
    match deletion {
        DeletionPolicy::Prune => 0,
        DeletionPolicy::Retain => confirmed_gone(s, source_id).len() as int + presumed_gone(
            s,
            source_id,
            feed,
            enumeration,
        ).len() as int,
    }
}

/// `now` is `s` but for the index and for how many documents were deleted or
/// counted as prunable.
pub open spec fn only_removed(s: RunView, now: RunView) -> bool {
    now == (RunView {
        index: now.index,
        result: IngestionResult {
            docs_deleted: now.result.docs_deleted,
            docs_prunable: now.result.docs_prunable,
            ..s.result
        },
        ..s
    })
}

/// The removals at the end of a run.
pub struct Removals<'a> {
    run: PipelineCallback<'a>,
    deletion: DeletionPolicy,
    enumeration: Enumeration,
    queue: Vec<String>,
    next: usize,
    sweeping: bool,
    suppressed: Option<Suppression>,
    begun: Ghost<RunView>,
}

impl<'a> Removals<'a> {
    /// The state of the run now.
    pub closed spec fn state(self) -> RunView {
        self.run@
    }

    /// The state of the run when removal began.
    pub closed spec fn begun(self) -> RunView {
        self.begun@
    }

    /// The source of the run.
    pub closed spec fn source(self) -> Source {
        self.run.of_source()
    }

    /// Whether the run may remove.
    pub closed spec fn policy(self) -> DeletionPolicy {
        self.deletion
    }

    /// What the ingestor said of its enumeration.
    pub closed spec fn seen_fully(self) -> Enumeration {
        self.enumeration
    }

    /// Whether what is presumed gone has been settled.
    pub closed spec fn swept(self) -> bool {
        self.sweeping
    }

    /// `self` goes on from `earlier`.
    pub open spec fn continues(self, earlier: Removals<'a>) -> bool {
        &&& self.wf()
        &&& only_removed(self.begun(), self.state())
        &&& earlier.swept() ==> self.swept()
        &&& self.begun() == earlier.begun()
        &&& self.source() == earlier.source()
        &&& self.policy() == earlier.policy()
        &&& self.seen_fully() == earlier.seen_fully()
    }

    /// The documents that are removed in this half.
    spec fn targets(self) -> Set<Seq<char>> {
        if self.deletion == DeletionPolicy::Retain {
            Set::empty()
        } else if self.sweeping {
            presumed_gone(self.half(), self.source().id@, self.source().spec is Feed, self.enumeration)
        } else {
            confirmed_gone(self.begun@, self.source().id@)
        }
    }

    /// The state in which this half began.
    spec fn half(self) -> RunView {
        if self.sweeping {
            before_sweep(self.begun@, self.source().id@, self.deletion)
        } else {
            self.begun@
        }
    }

    /// The index holds what has not been removed yet, and nothing but the index
    /// and the counters has changed.
    pub closed spec fn wf(self) -> bool {
        let id = self.source().id@;
        let feed = self.source().spec is Feed;
        let s = self.begun@;
        &&& self.run.wf()
        &&& self.next <= self.queue@.len()
        &&& lists(texts(self.queue@), self.targets())
        &&& self.run@.index == removed_in_turn(
            self.half().index,
            texts(self.queue@).take(self.next as int),
        )
        &&& only_removed(s, self.run@)
        &&& s.result.docs_prunable == 0
        &&& owned(s.index, id).finite()
        &&& owned(s.index, id).len() <= usize::MAX
        &&& self.run@.result.docs_prunable == (if self.sweeping {
            prunable(s, id, feed, self.deletion, self.enumeration)
        } else if self.deletion == DeletionPolicy::Retain {
            confirmed_gone(s, id).len() as int
        } else {
            0
        })
        &&& self.suppressed is Some ==> self.sweeping
        &&& self.sweeping ==> self.suppressed is Some == (!feed && reported(
            s,
            self.deletion,
            self.enumeration,
        ) is Some)
        &&& self.suppressed matches Some(why) ==> reported(s, self.deletion, self.enumeration) == Some(
            why.reason@,
        ) && why.documents_preserved == owned(self.half().index, id).len()
    }

    /// Starts to remove what is gone.
    pub fn start(
        run: PipelineCallback<'a>,
        deletion: DeletionPolicy,
        enumeration: Enumeration,
    ) -> (r: Removals<'a>)
        requires
            run.wf(),
            run@.result.docs_prunable == 0,
        ensures
            r.wf(),
            r.begun() == run@,
            r.source() == run.of_source(),
            r.policy() == deletion,
            r.seen_fully() == enumeration,
            r.state().index == run@.index,
            r.state().result.docs_deleted == run@.result.docs_deleted,
            only_removed(run@, r.state()),
            !r.swept(),
    {
        let mut run = run;
        let ghost s = run@;
        let ghost id = run.of_source().id@;
        let count: usize = run.owned_count();
        proof {
            vstd::set_lib::lemma_len_subset(confirmed_gone(s, id), owned(s.index, id));
        }
        let queue = run.confirmed_removals(deletion);
        let r = Removals {
            run,
            deletion,
            enumeration,
            queue,
            next: 0,
            sweeping: false,
            suppressed: None,
            begun: Ghost(s),
        };
        proof {
            assert(texts(r.queue@).take(0) =~= Seq::empty());
            if deletion == DeletionPolicy::Retain {
                assert(texts(r.queue@) =~= Seq::empty());
            }
        }
        r
    }

    /// Turns from what is known to be gone to what is presumed gone.
    fn sweep(&mut self)
        requires
            old(self).wf(),
            !old(self).sweeping,
            old(self).next == old(self).queue@.len(),
        ensures
            final(self).continues(*old(self)),
            final(self).sweeping,
            final(self).state().index == old(self).state().index,
            final(self).state().result.docs_deleted == old(self).state().result.docs_deleted,
    {
        let ghost s = self.begun@;
        let ghost id = self.source().id@;
        let ghost feed = self.source().spec is Feed;
        let ghost mid = before_sweep(s, id, self.deletion);
        let ghost now = self.run@;
        proof {
            let all = texts(self.queue@);
            assert(all.take(self.next as int) =~= all);
            law_removals_in_any_order(s.index, all, self.targets());
            if self.deletion == DeletionPolicy::Retain {
                assert(s.index.remove_keys(Set::empty()) =~= s.index);
            }
            assert(self.run@.index == mid.index);
            let c = confirmed_gone(s, id);
            let p = presumed_gone(now, id, feed, self.enumeration);
            assert(presumed_gone(now, id, feed, self.enumeration) == presumed_gone(
                mid,
                id,
                feed,
                self.enumeration,
            ));
            assert(p.subset_of(owned(s.index, id)));
            vstd::set_lib::lemma_set_subset_finite(owned(s.index, id), p);
            vstd::set_lib::lemma_set_subset_finite(owned(s.index, id), c);
            vstd::set_lib::lemma_len_subset(p, owned(s.index, id));
            if self.deletion == DeletionPolicy::Retain {
                assert(c.disjoint(p));
                vstd::set_lib::lemma_set_disjoint_lens(c, p);
                assert(c.union(p).subset_of(owned(s.index, id)));
                vstd::set_lib::lemma_len_subset(c.union(p), owned(s.index, id));
            }
        }
        let sweep = self.run.presumed_removals(self.deletion, &self.enumeration);
        self.queue = sweep.uris;
        self.suppressed = sweep.suppressed;
        self.next = 0;
        self.sweeping = true;
        proof {
            assert(texts(self.queue@).take(0) =~= Seq::empty());
            if self.deletion == DeletionPolicy::Retain {
                assert(texts(self.queue@) =~= Seq::empty());
            }
        }
    }

    /// Takes the next document out of the index, and names the resource to
    /// delete from the store. When there is none, the index is the one that the
    /// run ends with.
    pub fn next_removal(&mut self) -> (r: Option<String>)
        requires
            old(self).wf(),
        ensures
            final(self).continues(*old(self)),
            final(self).state().result.docs_deleted == old(self).state().result.docs_deleted,
            r matches Some(id) ==> exists|uri: Seq<char>| #[trigger]
                old(self).state().index.contains_key(uri) && old(self).policy()
                    == DeletionPolicy::Prune && pruned(
                    old(self).begun(),
                    old(self).source().id@,
                    old(self).source().spec is Feed,
                    old(self).seen_fully(),
                ).contains(uri) && id@ == old(self).state().index[uri].resource_id
                    && final(self).state().index == old(self).state().index.remove(uri),
            r is None ==> final(self).swept(),
            r is None ==> final(self).state().index == old(self).state().index,
            r is None ==> final(self).state().index == final_index(
                old(self).begun(),
                old(self).source().id@,
                old(self).source().spec is Feed,
                old(self).policy(),
                old(self).seen_fully(),
            ),
            r is None ==> final(self).state().result.docs_prunable == prunable(
                old(self).begun(),
                old(self).source().id@,
                old(self).source().spec is Feed,
                old(self).policy(),
                old(self).seen_fully(),
            ),
    {
        if self.next >= self.queue.len() && !self.sweeping {
            self.sweep();
        }
        let ghost all = texts(self.queue@);
        let ghost half = self.half();
        let ghost n = self.next as int;
        if self.next < self.queue.len() {
            let ghost uri = all[n];
            let ghost before = self.run@.index;
            proof {
                lemma_removed_in_turn(half.index, all.take(n));
                assert(all.contains(uri));
                assert(self.targets().contains(uri));
                assert(!all.take(n).contains(uri));
                assert(before.contains_key(uri));
            }
            let taken = self.queue[self.next].clone();
            let removed = self.run.remove_document(taken.as_str());
            self.next = self.next + 1;
            proof {
                assert(all.take(n + 1).drop_last() =~= all.take(n));
                assert(all.take(n + 1).last() == uri);
                assert(old(self).state().index == before);
                assert(old(self).state().index.contains_key(uri));
                assert(pruned(
                    self.begun@,
                    self.source().id@,
                    self.source().spec is Feed,
                    self.enumeration,
                ).contains(uri));
                assert(removed is Some);
                assert(removed->0@ == before[uri].resource_id);
                assert(self.run@.index == before.remove(uri));
            }
            return removed;
        }
        proof {
            assert(all.take(n) =~= all);
            law_removals_in_any_order(half.index, all, self.targets());
            let s = self.begun@;
            let id = self.source().id@;
            let c = confirmed_gone(s, id);
            if self.deletion == DeletionPolicy::Prune {
                assert(s.index.remove_keys(c).remove_keys(self.targets()) =~= s.index.remove_keys(
                    c.union(self.targets()),
                ));
            } else {
                assert(s.index.remove_keys(Set::empty()) =~= s.index);
            }
        }
        None
    }

    /// The store deleted `rows` rows of the document last removed.
    pub fn deleted(&mut self, rows: u64)
        requires
            old(self).wf(),
            old(self).state().result.docs_deleted < u64::MAX,
        ensures
            final(self).continues(*old(self)),
            final(self).state() == (RunView {
                result: IngestionResult {
                    docs_deleted: (old(self).state().result.docs_deleted + if rows > 0 {
                        1int
                    } else {
                        0
                    }) as u64,
                    ..old(self).state().result
                },
                ..old(self).state()
            }),
    {
        self.run.note_deleted(rows);
    }

    /// Why the sweep did not run, where it did not. Known once
    /// [`Removals::next_removal`] has returned nothing.
    pub fn suppressed(&self) -> (r: Option<&Suppression>)
        requires
            self.wf(),
        ensures
            r is Some == (self.swept() && !(self.source().spec is Feed) && reported(
                self.begun(),
                self.policy(),
                self.seen_fully(),
            ) is Some),
            r matches Some(why) ==> reported(
                self.begun(),
                self.policy(),
                self.seen_fully(),
            ) == Some(why.reason@) && why.documents_preserved == owned(
                before_sweep(self.begun(), self.source().id@, self.policy()).index,
                self.source().id@,
            ).len(),
    {
        match &self.suppressed {
            Some(why) => Some(why),
            None => None,
        }
    }

    /// Ends the run.
    pub fn finish(self) -> (r: (DocumentIndex, IngestionResult, ProgressEvent))
        requires
            self.wf(),
        ensures
            r.0.wf(),
            r.0@ == self.state().index,
            r.1 == self.state().result,
            r.2@ == (ProgressView::SourceFinished { result: self.state().result }),
    {
        self.run.finish()
    }
}

/// What a retaining run counts as prunable is what a pruning run would have
/// removed.
pub proof fn law_prunable_is_what_would_be_removed(
    s: RunView,
    source_id: Seq<char>,
    feed: bool,
    enumeration: Enumeration,
)
    requires
        s.index.dom().finite(),
    ensures
        prunable(s, source_id, feed, DeletionPolicy::Retain, enumeration) == pruned(
            s,
            source_id,
            feed,
            enumeration,
        ).len(),
        prunable(s, source_id, feed, DeletionPolicy::Prune, enumeration) == 0,
{
    let c = confirmed_gone(s, source_id);
    let p = presumed_gone(s, source_id, feed, enumeration);
    vstd::set_lib::lemma_set_subset_finite(s.index.dom(), c);
    vstd::set_lib::lemma_set_subset_finite(s.index.dom(), p);
    assert(c.disjoint(p));
    vstd::set_lib::lemma_set_disjoint_lens(c, p);
}

/// A retaining run ends with the index it had.
pub proof fn law_retaining_run_removes_nothing(
    s: RunView,
    source_id: Seq<char>,
    feed: bool,
    enumeration: Enumeration,
)
    ensures
        final_index(s, source_id, feed, DeletionPolicy::Retain, enumeration) == s.index,
{
}

/// A document that was seen and not confirmed to be gone, or that belongs to
/// another source, is in the index that the run ends with, unchanged.
pub proof fn law_living_documents_stay(
    s: RunView,
    source_id: Seq<char>,
    feed: bool,
    deletion: DeletionPolicy,
    enumeration: Enumeration,
    uri: Seq<char>,
)
    requires
        s.index.contains_key(uri),
        s.index[uri].source_id != source_id || (s.seen.contains(uri) && !s.gone.contains(uri)),
    ensures
        final_index(s, source_id, feed, deletion, enumeration).contains_key(uri),
        final_index(s, source_id, feed, deletion, enumeration)[uri] == s.index[uri],
{
    assert(!pruned(s, source_id, feed, enumeration).contains(uri));
}

/// A retaining run reports that none of the documents that its source owned was
/// seen, whether or not they are known to be gone; a pruning run counts only those
/// that are left. An incomplete enumeration is always reported.
pub proof fn law_what_is_reported(s: RunView, enumeration: Enumeration)
    ensures
        enumeration matches Enumeration::Incomplete { reason } ==> reported(
            s,
            DeletionPolicy::Prune,
            enumeration,
        ) == Some(reason@) && reported(s, DeletionPolicy::Retain, enumeration) == Some(reason@),
        enumeration is Complete && (exists|u: Seq<char>|
            s.known.contains(u) && s.seen.contains(u) && !s.gone.contains(u)) ==> reported(
            s,
            DeletionPolicy::Prune,
            enumeration,
        ) is None && reported(s, DeletionPolicy::Retain, enumeration) is None,
        enumeration is Complete && (exists|u: Seq<char>| s.known.contains(u)) && s.known.disjoint(
            s.seen,
        ) ==> reported(s, DeletionPolicy::Retain, enumeration) is Some,
{
    if enumeration is Complete {
        let expected = s.known.difference(s.gone);
        if exists|u: Seq<char>| s.known.contains(u) && s.seen.contains(u) && !s.gone.contains(u) {
            let u = choose|u: Seq<char>|
                s.known.contains(u) && s.seen.contains(u) && !s.gone.contains(u);
            assert(expected.intersect(s.seen).contains(u));
            assert(s.known.intersect(s.seen).contains(u));
        }
        if (exists|u: Seq<char>| s.known.contains(u)) && s.known.disjoint(s.seen) {
            let u = choose|u: Seq<char>| s.known.contains(u);
            assert(s.known.intersect(s.seen) =~= Set::empty());
            assert(s.known != Set::<Seq<char>>::empty());
        }
    }
}

} // verus!
