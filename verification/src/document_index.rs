//! What was last indexed, document by document.

use vstd::hash_map::*;
use vstd::hash_set::*;
use vstd::prelude::*;
use vstd::string::*;

use crate::text::texts;

verus! {

/// Whether `list` names the members of `members`, each once.
pub open spec fn lists(list: Seq<Seq<char>>, members: Set<Seq<char>>) -> bool {
    &&& list.no_duplicates()
    &&& forall|u: Seq<char>| #[trigger] members.contains(u) <==> list.contains(u)
}

// ---------------------------------------------------------------------------
// Sets of URIs
// ---------------------------------------------------------------------------

/// A set of URIs that can be listed, in the order of their first insertion.
pub struct UriSet {
    members: StringHashSet,
    order: Vec<String>,
}

impl View for UriSet {
    type V = Set<Seq<char>>;

    closed spec fn view(&self) -> Set<Seq<char>> {
        self.members@
    }
}

impl UriSet {
    /// The list and the set agree.
    pub closed spec fn wf(self) -> bool {
        lists(texts(self.order@), self.members@)
    }

    /// A set without members.
    pub fn new() -> (r: UriSet)
        ensures
            r.wf(),
            r@ == Set::<Seq<char>>::empty(),
    {
        let r = UriSet { members: StringHashSet::new(), order: Vec::new() };
        proof {
            assert(texts(r.order@) =~= Seq::empty());
        }
        r
    }

    /// Adds `uri`.
    pub fn insert(&mut self, uri: &str)
        requires
            old(self).wf(),
        ensures
            final(self).wf(),
            final(self)@ == old(self)@.insert(uri@),
    {
        if !self.members.contains(uri) {
            let ghost before = texts(self.order@);
            self.members.insert(uri.to_owned());
            self.order.push(uri.to_owned());
            proof {
                let after = texts(self.order@);
                assert(after =~= before.push(uri@));
                assert forall|u: Seq<char>| #[trigger]
                    self.members@.contains(u) <==> after.contains(u) by {
                    if before.contains(u) {
                        let i = before.index_of(u);
                        assert(after[i] == u);
                    }
                    if u == uri@ {
                        assert(after[before.len() as int] == u);
                    }
                    if after.contains(u) && u != uri@ {
                        let i = after.index_of(u);
                        assert(before[i] == u);
                    }
                }
            }
        } else {
            proof {
                assert(self@.insert(uri@) =~= self@);
            }
        }
    }

    /// Whether `uri` is a member.
    pub fn contains(&self, uri: &str) -> (r: bool)
        ensures
            r == self@.contains(uri@),
    {
        self.members.contains(uri)
    }

    /// The members, in the order of their first insertion.
    pub fn list(&self) -> (r: &Vec<String>)
        requires
            self.wf(),
        ensures
            lists(texts(r@), self@),
    {
        &self.order
    }
}

// ---------------------------------------------------------------------------
// Records
// ---------------------------------------------------------------------------

/// What was indexed for one URI, enough to tell whether its content changed.
#[derive(Debug)]
pub struct DocumentRecord {
    /// Canonical URI of the document.
    pub uri: String,
    /// Content-addressed id from the last indexing.
    pub resource_id: String,
    /// The source that last indexed the document, and owns it.
    pub source_id: String,
    /// Hash of the content that was indexed.
    pub content_hash: String,
    /// The policy version it was indexed under.
    pub policy_version: String,
}

impl Clone for DocumentRecord {
    fn clone(&self) -> (r: DocumentRecord)
        ensures
            r == *self,
    {
        DocumentRecord {
            uri: self.uri.clone(),
            resource_id: self.resource_id.clone(),
            source_id: self.source_id.clone(),
            content_hash: self.content_hash.clone(),
            policy_version: self.policy_version.clone(),
        }
    }
}

/// The mathematical value of a [`DocumentRecord`].
#[verifier::ext_equal]
pub struct RecordView {
    pub uri: Seq<char>,
    pub resource_id: Seq<char>,
    pub source_id: Seq<char>,
    pub content_hash: Seq<char>,
    pub policy_version: Seq<char>,
}

impl View for DocumentRecord {
    type V = RecordView;

    open spec fn view(&self) -> RecordView {
        RecordView {
            uri: self.uri@,
            resource_id: self.resource_id@,
            source_id: self.source_id@,
            content_hash: self.content_hash@,
            policy_version: self.policy_version@,
        }
    }
}

/// The values of a run of records.
pub open spec fn record_views(records: Seq<DocumentRecord>) -> Seq<RecordView> {
    records.map_values(|r: DocumentRecord| r@)
}

/// The records keyed by URI; of two with the same URI the later one counts.
pub open spec fn keyed(records: Seq<RecordView>) -> Map<Seq<char>, RecordView>
    decreases records.len(),
{
    if records.len() == 0 {
        Map::empty()
    } else {
        keyed(records.drop_last()).insert(records.last().uri, records.last())
    }
}

/// Whether `slots` says where each URI's only record stands.
spec fn slotted(records: Seq<RecordView>, slots: Map<Seq<char>, usize>) -> bool {
    &&& forall|i: int|
        0 <= i < records.len() ==> slots.contains_key((#[trigger] records[i]).uri)
            && slots[records[i].uri] == i
    &&& forall|u: Seq<char>| #[trigger]
        slots.contains_key(u) ==> slots[u] < records.len() && records[slots[u] as int].uri == u
}

/// The records that `slots` finds, by URI.
spec fn found_by(records: Seq<RecordView>, slots: Map<Seq<char>, usize>) -> Map<
    Seq<char>,
    RecordView,
> {
    Map::new(|u: Seq<char>| slots.contains_key(u), |u: Seq<char>| records[slots[u] as int])
}

/// Index of previously seen documents, keyed by URI.
pub struct DocumentIndex {
    slots: StringHashMap<usize>,
    records: Vec<DocumentRecord>,
}

impl View for DocumentIndex {
    type V = Map<Seq<char>, RecordView>;

    closed spec fn view(&self) -> Map<Seq<char>, RecordView> {
        found_by(record_views(self.records@), self.slots@)
    }
}

impl DocumentIndex {
    /// Every record stands once, where its URI says.
    pub closed spec fn wf(self) -> bool {
        slotted(record_views(self.records@), self.slots@)
    }

    /// In a valid index each record is kept under its own URI.
    pub proof fn law_kept_under_own_uri(self)
        requires
            self.wf(),
        ensures
            forall|u: Seq<char>| #[trigger] self@.contains_key(u) ==> self@[u].uri == u,
            self@.dom().finite(),
    {
        let views = record_views(self.records@);
        let uris = views.map_values(|r: RecordView| r.uri);
        assert(self@.dom() =~= uris.to_set()) by {
            assert forall|u: Seq<char>| self@.dom().contains(u) <==> uris.to_set().contains(u) by {
                if self@.dom().contains(u) {
                    assert(uris[self.slots@[u] as int] == u);
                }
                if uris.contains(u) {
                    let i = uris.index_of(u);
                    assert(views[i].uri == u);
                }
            }
        }
        vstd::seq_lib::seq_to_set_is_finite(uris);
    }

    /// An index without records.
    pub fn new() -> (r: DocumentIndex)
        ensures
            r.wf(),
            r@ == Map::<Seq<char>, RecordView>::empty(),
    {
        let r = DocumentIndex { slots: StringHashMap::new(), records: Vec::new() };
        proof {
            assert(r@ =~= Map::empty());
        }
        r
    }

    /// The index of `records`; of two with the same URI the later one counts.
    pub fn from_records(records: Vec<DocumentRecord>) -> (r: DocumentIndex)
        ensures
            r.wf(),
            r@ == keyed(record_views(records@)),
    {
        let mut out = DocumentIndex::new();
        let ghost views = record_views(records@);
        for record in it: records
            invariant
                it.seq() == records@,
                views == record_views(records@),
                out.wf(),
                out@ == keyed(views.take(it.index() as int)),
        {
            let ghost i = it.index();
            proof {
                assert(views.take(i + 1).drop_last() =~= views.take(i));
                assert(views.take(i + 1).last() == record@);
            }
            out.upsert(record);
        }
        proof {
            assert(views.take(views.len() as int) =~= views);
        }
        out
    }

    /// The record of `uri`.
    pub fn get(&self, uri: &str) -> (r: Option<&DocumentRecord>)
        requires
            self.wf(),
        ensures
            r is Some == self@.contains_key(uri@),
            r matches Some(record) ==> record@ == self@[uri@],
    {
        match self.slots.get(uri) {
            Some(slot) => {
                let i: usize = *slot;
                proof {
                    assert(record_views(self.records@)[i as int] == self.records@[i as int]@);
                }
                Some(&self.records[i])
            },
            None => None,
        }
    }

    /// Adds a record, or replaces the one with its URI.
    pub fn upsert(&mut self, record: DocumentRecord)
        requires
            old(self).wf(),
        ensures
            final(self).wf(),
            final(self)@ == old(self)@.insert(record.uri@, record@),
    {
        let ghost before = record_views(self.records@);
        let found: Option<usize> = match self.slots.get(record.uri.as_str()) {
            Some(slot) => Some(*slot),
            None => None,
        };
        match found {
            Some(i) => {
                self.records.set(i, record);
                proof {
                    let after = record_views(self.records@);
                    assert(after =~= before.update(i as int, record@));
                    assert(self@ =~= old(self)@.insert(record.uri@, record@));
                }
            },
            None => {
                let i: usize = self.records.len();
                self.slots.insert(record.uri.clone(), i);
                self.records.push(record);
                proof {
                    let after = record_views(self.records@);
                    assert(after =~= before.push(record@));
                    assert(self@ =~= old(self)@.insert(record.uri@, record@));
                }
            },
        }
    }

    /// Takes the record of `uri` out.
    pub fn remove(&mut self, uri: &str) -> (r: Option<DocumentRecord>)
        requires
            old(self).wf(),
        ensures
            final(self).wf(),
            final(self)@ == old(self)@.remove(uri@),
            r is Some == old(self)@.contains_key(uri@),
            r matches Some(record) ==> record@ == old(self)@[uri@],
    {
        let found: Option<usize> = match self.slots.get(uri) {
            Some(slot) => Some(*slot),
            None => None,
        };
        let ghost before = record_views(self.records@);
        match found {
            Some(i) => {
                let n: usize = self.records.len();
                proof {
                    assert(before[i as int] == self.records@[i as int]@);
                    assert(before[n - 1] == self.records@[n - 1]@);
                }
                let record = self.records.swap_remove(i);
                self.slots.remove(uri);
                if i + 1 < n {
                    let moved = self.records[i].uri.clone();
                    self.slots.insert(moved, i);
                }
                proof {
                    let after = record_views(self.records@);
                    assert(after =~= before.update(i as int, before.last()).drop_last());
                    assert(slotted(after, self.slots@)) by {
                        assert forall|k: int| 0 <= k < after.len() implies self.slots@.contains_key(
                            (#[trigger] after[k]).uri,
                        ) && self.slots@[after[k].uri] == k by {
                            if k != i {
                                assert(after[k] == before[k]);
                            }
                        }
                    }
                    assert(self@ =~= old(self)@.remove(uri@));
                }
                Some(record)
            },
            None => {
                proof {
                    assert(self@.remove(uri@) =~= self@);
                }
                None
            },
        }
    }

    /// All URIs of the index, each once, in no particular order.
    pub fn uris(&self) -> (r: Vec<String>)
        requires
            self.wf(),
        ensures
            lists(texts(r@), self@.dom()),
    {
        let ghost views = record_views(self.records@);
        let mut out: Vec<String> = Vec::new();
        let n: usize = self.records.len();
        let mut i: usize = 0;
        while i < n
            invariant
                0 <= i <= n,
                n == self.records@.len(),
                out@.len() == i,
                forall|k: int| 0 <= k < i ==> (#[trigger] out@[k])@ == self.records@[k].uri@,
            decreases n - i,
        {
            out.push(self.records[i].uri.clone());
            i += 1;
        }
        proof {
            let list = texts(out@);
            assert forall|a: int, b: int| 0 <= a < b < list.len() implies list[a] != list[b] by {
                assert(views[a].uri == list[a]);
                assert(views[b].uri == list[b]);
            }
            assert forall|u: Seq<char>| #[trigger]
                self@.dom().contains(u) <==> list.contains(u) by {
                if self@.dom().contains(u) {
                    assert(list[self.slots@[u] as int] == u);
                }
                if list.contains(u) {
                    let k = list.index_of(u);
                    assert(views[k].uri == u);
                }
            }
        }
        out
    }

    /// The number of records.
    pub fn len(&self) -> (r: usize)
        requires
            self.wf(),
        ensures
            r == self@.len(),
    {
        proof {
            let views = record_views(self.records@);
            let list = views.map_values(|r: RecordView| r.uri);
            assert(list.no_duplicates()) by {
                assert forall|a: int, b: int| 0 <= a < list.len() && 0 <= b < list.len() && a
                    != b implies list[a] != list[b] by {
                    assert(views[a].uri == list[a]);
                    assert(views[b].uri == list[b]);
                }
            }
            list.unique_seq_to_set();
            assert(self@.dom() =~= list.to_set()) by {
                assert forall|u: Seq<char>|
                    self@.dom().contains(u) <==> list.to_set().contains(u) by {
                    if self@.dom().contains(u) {
                        assert(list[self.slots@[u] as int] == u);
                    }
                    if list.contains(u) {
                        let k = list.index_of(u);
                        assert(views[k].uri == u);
                    }
                }
            }
        }
        self.records.len()
    }

    /// Whether the index has no record.
    pub fn is_empty(&self) -> (r: bool)
        requires
            self.wf(),
        ensures
            r == (self@ == Map::<Seq<char>, RecordView>::empty()),
    {
        proof {
            if self.records@.len() == 0 {
                assert(self@ =~= Map::empty());
            } else {
                assert(record_views(self.records@)[0] == self.records@[0]@);
                assert(self@.contains_key(self.records@[0].uri@));
            }
        }
        self.records.len() == 0
    }
}

impl Default for DocumentIndex {
    fn default() -> (r: DocumentIndex)
        ensures
            r.wf(),
            r@ == Map::<Seq<char>, RecordView>::empty(),
    {
        DocumentIndex::new()
    }
}

/// A record that was written is read back, until it is replaced or removed.
pub proof fn law_upsert_then_get(
    index: Map<Seq<char>, RecordView>,
    record: RecordView,
    other: Seq<char>,
)
    ensures
        index.insert(record.uri, record)[record.uri] == record,
        other != record.uri ==> index.insert(record.uri, record).contains_key(other)
            == index.contains_key(other),
        other != record.uri && index.contains_key(other) ==> index.insert(
            record.uri,
            record,
        )[other] == index[other],
        !index.insert(record.uri, record).remove(record.uri).contains_key(record.uri),
{
}

/// An index built from a list knows exactly the URIs of the list, and for each
/// the last record listed under it.
pub proof fn law_keyed_last_wins(records: Seq<RecordView>, i: int)
    requires
        0 <= i < records.len(),
        forall|j: int| i < j < records.len() ==> (#[trigger] records[j]).uri != records[i].uri,
    ensures
        keyed(records).contains_key(records[i].uri),
        keyed(records)[records[i].uri] == records[i],
    decreases records.len(),
{
    if i < records.len() - 1 {
        let front = records.drop_last();
        assert(front[i] == records[i]);
        assert forall|j: int| i < j < front.len() implies (#[trigger] front[j]).uri
            != front[i].uri by {
            assert(front[j] == records[j]);
        }
        assert(records[records.len() - 1].uri != records[i].uri);
        law_keyed_last_wins(front, i);
    }
}

/// An index built from a list knows no URI that is not listed.
pub proof fn law_keyed_knows_only_listed(records: Seq<RecordView>, uri: Seq<char>)
    requires
        forall|j: int| 0 <= j < records.len() ==> (#[trigger] records[j]).uri != uri,
    ensures
        !keyed(records).contains_key(uri),
    decreases records.len(),
{
    if records.len() > 0 {
        let front = records.drop_last();
        assert forall|j: int| 0 <= j < front.len() implies (#[trigger] front[j]).uri != uri by {
            assert(front[j] == records[j]);
        }
        assert(records[records.len() - 1].uri != uri);
        law_keyed_knows_only_listed(front, uri);
    }
}

/// A record says what its fields say.
pub proof fn law_record_values(record: DocumentRecord)
    ensures
        record@.uri == record.uri@,
        record@.resource_id == record.resource_id@,
        record@.source_id == record.source_id@,
        record@.content_hash == record.content_hash@,
        record@.policy_version == record.policy_version@,
{
}

} // verus!
