//! Finding the files of a path source.
//!
//! A directory is handed over as it was read. Patterns of exclusion see the path
//! relative to the root and the bare name, and what they exclude is not entered;
//! patterns of inclusion see the relative path of files only.

use globset::GlobSet;
use vstd::prelude::*;
use vstd::string::*;

use crate::error::{fails_with, Error, ErrorView};
use crate::globs::{any_matches, build_glob_set, globs_error, set_is_match, set_patterns};
use crate::ranking::{law_ranked, rank, ranked, ranks_before, RankKey, Ranked};
use crate::text::{chars_of, stands_before, text_before, texts};
use crate::uri::{file_url, Uri};

verus! {

/// One entry of a directory.
#[derive(Debug)]
pub struct DirEntry {
    pub name: String,
    pub node: DirNode,
}

/// What an entry of a directory is.
#[derive(Debug)]
pub enum DirNode {
    /// A file, with its canonical path.
    File { path: String },
    /// A directory, with what it holds.
    Directory { entries: Vec<DirEntry> },
    /// Neither.
    Other,
}

/// A file of a path source.
#[derive(Clone, Debug)]
pub struct FoundFile {
    /// Canonical path.
    pub path: String,
    /// Its `file` URI.
    pub uri: Uri,
}

/// The files of a path source.
#[derive(Clone, Debug)]
pub enum PathEnumeration {
    /// The root was there and was read in full: these are its files.
    Complete(Vec<FoundFile>),
    /// The root was not there, which says nothing of what it used to hold.
    RootUnavailable,
}

impl PathEnumeration {
    /// The files that were found.
    pub fn files(&self) -> (r: &[FoundFile])
        ensures
            r@ == (match *self {
                PathEnumeration::Complete(files) => files@,
                PathEnumeration::RootUnavailable => Seq::empty(),
            }),
    {
        match self {
            PathEnumeration::Complete(files) => files.as_slice(),
            PathEnumeration::RootUnavailable => {
                let none: &[FoundFile] = &[];
                proof {
                    assert(none@ =~= Seq::empty());
                }
                none
            },
        }
    }
}

/// The path of the entry `name` of the directory `dir`, relative to the root.
pub open spec fn relative_path(dir: Seq<char>, name: Seq<char>) -> Seq<char> {
    if dir.len() == 0 {
        name
    } else {
        dir + "/"@ + name
    }
}

/// Whether an entry is excluded: by its relative path, or by its bare name.
pub open spec fn is_excluded(
    exclude: Seq<Seq<char>>,
    relative: Seq<char>,
    name: Seq<char>,
) -> bool {
    any_matches(exclude, relative) || any_matches(exclude, name)
}

/// Whether a file is included: always without patterns, otherwise where one
/// matches its relative path.
pub open spec fn is_included(includes: Seq<Seq<char>>, relative: Seq<char>) -> bool {
    includes.len() == 0 || any_matches(includes, relative)
}

/// The paths of the files that are found at a node whose relative path is
/// `relative`.
pub open spec fn files_at(
    node: DirNode,
    relative: Seq<char>,
    includes: Seq<Seq<char>>,
    exclude: Seq<Seq<char>>,
) -> Seq<Seq<char>>
    decreases node, 0nat,
{
    match node {
        DirNode::File { path } => if is_included(includes, relative) {
            seq![path@]
        } else {
            Seq::empty()
        },
        DirNode::Directory { entries } => files_in(
            entries,
            entries@.len(),
            relative,
            includes,
            exclude,
        ),
        DirNode::Other => Seq::empty(),
    }
}

/// The paths of the files that are found in the first `n` entries of a
/// directory, and below them.
pub open spec fn files_in(
    entries: Vec<DirEntry>,
    n: nat,
    dir: Seq<char>,
    includes: Seq<Seq<char>>,
    exclude: Seq<Seq<char>>,
) -> Seq<Seq<char>>
    decreases entries, n,
{
    if n == 0 || n > entries@.len() {
        Seq::empty()
    } else {
        let before = files_in(entries, (n - 1) as nat, dir, includes, exclude);
        let entry = entries[n - 1];
        let relative = relative_path(dir, entry.name@);
        if is_excluded(exclude, relative, entry.name@) {
            before
        } else {
            before + files_at(entry.node, relative, includes, exclude)
        }
    }
}

/// A compiled pair of pattern lists.
pub struct PathFilter {
    include_set: GlobSet,
    include_empty: bool,
    exclude_set: GlobSet,
}

impl PathFilter {
    /// The patterns of inclusion.
    pub closed spec fn includes(self) -> Seq<Seq<char>> {
        set_patterns(self.include_set)
    }

    /// The patterns of exclusion.
    pub closed spec fn excludes(self) -> Seq<Seq<char>> {
        set_patterns(self.exclude_set)
    }

    /// The empty list of inclusions is known to be empty.
    pub closed spec fn wf(self) -> bool {
        self.include_empty == (self.includes().len() == 0)
    }

    /// Compiles two lists of patterns. The first error of the inclusions comes
    /// before those of the exclusions.
    pub fn new(includes: &[String], exclude: &[String]) -> (r: Result<PathFilter, Error>)
        ensures
            match filter_error(texts(includes@), texts(exclude@)) {
                Some(e) => fails_with(r, e),
                None => r is Ok,
            },
            r matches Ok(f) ==> f.wf() && f.includes() == texts(includes@) && f.excludes() == texts(
                exclude@,
            ),
    {
        let include_set = match build_glob_set(includes) {
            Ok(set) => set,
            Err(e) => {
                return Err(e);
            },
        };
        let exclude_set = match build_glob_set(exclude) {
            Ok(set) => set,
            Err(e) => {
                return Err(e);
            },
        };
        Ok(PathFilter { include_set, include_empty: includes.len() == 0, exclude_set })
    }

    /// Whether an entry is excluded, so that it need not be entered.
    pub fn excluded(&self, relative: &str, name: &str) -> (r: bool)
        ensures
            r == is_excluded(self.excludes(), relative@, name@),
    {
        set_is_match(&self.exclude_set, relative) || set_is_match(&self.exclude_set, name)
    }

    /// Whether a file is included.
    pub fn included(&self, relative: &str) -> (r: bool)
        requires
            self.wf(),
        ensures
            r == is_included(self.includes(), relative@),
    {
        self.include_empty || set_is_match(&self.include_set, relative)
    }
}

/// The error for two lists of patterns.
pub open spec fn filter_error(includes: Seq<Seq<char>>, exclude: Seq<Seq<char>>) -> Option<
    ErrorView,
> {
    match globs_error(includes, 0) {
        Some(e) => Some(e),
        None => globs_error(exclude, 0),
    }
}

/// The path of the entry `name` of the directory `dir`, relative to the root.
pub fn join_relative(dir: &str, name: &str) -> (r: String)
    ensures
        r@ == relative_path(dir@, name@),
{
    if dir.unicode_len() == 0 {
        name.to_owned()
    } else {
        let mut out = dir.to_owned();
        out.append("/");
        out.append(name);
        out
    }
}

/// Adds the files that are found in a directory, and below it.
fn enumerate_dir(entries: &Vec<DirEntry>, dir: &str, filter: &PathFilter, found: &mut Vec<String>)
    requires
        filter.wf(),
    ensures
        texts(final(found)@) == texts(old(found)@) + files_in(
            *entries,
            entries@.len(),
            dir@,
            filter.includes(),
            filter.excludes(),
        ),
    decreases entries,
{
    let ghost start = texts(found@);
    let n: usize = entries.len();
    let mut i: usize = 0;
    while i < n
        invariant
            0 <= i <= n,
            n == entries@.len(),
            filter.wf(),
            texts(found@) =~= start + files_in(
                *entries,
                i as nat,
                dir@,
                filter.includes(),
                filter.excludes(),
            ),
        decreases n - i,
    {
        let entry = &entries[i];
        let relative = join_relative(dir, entry.name.as_str());
        let ghost before = texts(found@);
        let ghost own = files_at(entry.node, relative@, filter.includes(), filter.excludes());
        if !filter.excluded(relative.as_str(), entry.name.as_str()) {
            match &entry.node {
                DirNode::Directory { entries: below } => {
                    enumerate_dir(below, relative.as_str(), filter, found);
                },
                DirNode::File { path } => {
                    if filter.included(relative.as_str()) {
                        found.push(path.clone());
                        proof {
                            assert(texts(found@) =~= before + seq![path@]);
                        }
                    }
                },
                DirNode::Other => {},
            }
            proof {
                assert(texts(found@) =~= before + own);
            }
        }
        i += 1;
    }
}

/// A path with its separators in front of every other character, so that paths
/// are in the order of their components.
pub open spec fn path_order(path: Seq<char>) -> Seq<char> {
    path.map_values(
        |c: char|
            if c == '/' {
                '\0'
            } else {
                c
            },
    )
}

fn order_text(path: &str) -> (r: String)
    ensures
        r@ == path_order(path@),
{
    let chars = chars_of(path);
    let n: usize = chars.len();
    let mut out = String::new();
    let mut i: usize = 0;
    while i < n
        invariant
            0 <= i <= n,
            n == chars@.len(),
            chars@ == path@,
            out@ =~= path_order(path@).take(i as int),
        decreases n - i,
    {
        out.push(
            if chars[i] == '/' {
                '\0'
            } else {
                chars[i]
            },
        );
        i += 1;
    }
    out
}

impl Ranked for FoundFile {
    open spec fn rank_key(&self) -> RankKey {
        RankKey { score: 0, store_id: path_order(self.path@), chunk_id: Seq::empty() }
    }

    fn outranks(&self, other: &FoundFile) -> (r: bool) {
        let a = order_text(self.path.as_str());
        let b = order_text(other.path.as_str());
        stands_before(a.as_str(), b.as_str())
    }
}

/// The error for a path that has no `file` URI.
pub open spec fn no_uri_error(path: Seq<char>) -> ErrorView {
    ErrorView::Internal {
        message: "cannot build a file:// URI for non-absolute path '"@ + path
            + "' (canonicalization failed and the source root is relative)"@,
        correlation_id: "enumerate_dir"@,
    }
}

/// The first of `paths`, from `from` on, that has no `file` URI.
pub open spec fn first_without_uri(paths: Seq<Seq<char>>, from: int) -> Option<Seq<char>>
    decreases paths.len() - from,
{
    if from < 0 || from >= paths.len() {
        None
    } else if file_url(paths[from]) is None {
        Some(paths[from])
    } else {
        first_without_uri(paths, from + 1)
    }
}

/// Whether `files` are the files at `paths`, with their URIs.
pub open spec fn are_files(files: Seq<FoundFile>, paths: Seq<Seq<char>>) -> bool {
    &&& files.len() == paths.len()
    &&& forall|i: int|
        0 <= i < files.len() ==> (#[trigger] files[i]).path@ == paths[i] && file_url(paths[i])
            == Some(files[i].uri@)
}

/// Gives each path its URI. A path without one is an error: to leave its file
/// out would let the file pass for deleted.
pub fn with_uris(paths: &[String]) -> (r: Result<Vec<FoundFile>, Error>)
    ensures
        match first_without_uri(texts(paths@), 0) {
            Some(path) => fails_with(r, no_uri_error(path)),
            None => r is Ok,
        },
        r matches Ok(files) ==> are_files(files@, texts(paths@)),
{
    let ghost all = texts(paths@);
    let mut out: Vec<FoundFile> = Vec::new();
    let n: usize = paths.len();
    let mut i: usize = 0;
    while i < n
        invariant
            0 <= i <= n,
            n == paths@.len(),
            all == texts(paths@),
            are_files(out@, all.take(i as int)),
            first_without_uri(all, 0) == first_without_uri(all, i as int),
        decreases n - i,
    {
        let path = paths[i].as_str();
        proof {
            assert(all[i as int] == path@);
        }
        match Uri::from_file_path(path) {
            Some(uri) => {
                let ghost before = out@;
                out.push(FoundFile { path: paths[i].clone(), uri });
                proof {
                    assert forall|k: int| 0 <= k < out@.len() implies (#[trigger] out@[k]).path@
                        == all.take(i + 1)[k] && file_url(all.take(i + 1)[k]) == Some(
                        out@[k].uri@,
                    ) by {
                        if k < i {
                            assert(before[k] == out@[k]);
                            assert(all.take(i as int)[k] == all.take(i + 1)[k]);
                        }
                    }
                }
            },
            None => {
                let mut message = "cannot build a file:// URI for non-absolute path '".to_owned();
                message.append(path);
                message.append("' (canonicalization failed and the source root is relative)");
                return Err(
                    Error::Internal { message, correlation_id: "enumerate_dir".to_owned() },
                );
            },
        }
        i += 1;
    }
    proof {
        assert(all.take(n as int) =~= all);
    }
    Ok(out)
}

/// The error of an enumeration: of the patterns, or of a path without a URI.
pub open spec fn enumeration_error(
    entries: Vec<DirEntry>,
    includes: Seq<Seq<char>>,
    exclude: Seq<Seq<char>>,
) -> Option<ErrorView> {
    match filter_error(includes, exclude) {
        Some(e) => Some(e),
        None => match first_without_uri(
            files_in(entries, entries@.len(), Seq::empty(), includes, exclude),
            0,
        ) {
            Some(path) => Some(no_uri_error(path)),
            None => None,
        },
    }
}

/// The files of a path source, in the order of their paths. `root` is what its
/// root directory holds, or nothing where there is no root.
pub fn enumerate_path_source(
    root: Option<&Vec<DirEntry>>,
    includes: &[String],
    exclude: &[String],
) -> (r: Result<PathEnumeration, Error>)
    ensures
        root is None ==> r == Ok::<PathEnumeration, Error>(PathEnumeration::RootUnavailable),
        root matches Some(entries) ==> match enumeration_error(
            *entries,
            texts(includes@),
            texts(exclude@),
        ) {
            Some(e) => fails_with(r, e),
            None => match r {
                Ok(PathEnumeration::Complete(files)) => exists|found: Seq<FoundFile>|
                    #![trigger ranked(found)]
                    are_files(
                        found,
                        files_in(
                            *entries,
                            entries@.len(),
                            Seq::empty(),
                            texts(includes@),
                            texts(exclude@),
                        ),
                    ) && files@ == ranked(found),
                _ => false,
            },
        },
{
    let entries = match root {
        Some(entries) => entries,
        None => {
            return Ok(PathEnumeration::RootUnavailable);
        },
    };
    let filter = match PathFilter::new(includes, exclude) {
        Ok(filter) => filter,
        Err(e) => {
            return Err(e);
        },
    };
    let mut paths: Vec<String> = Vec::new();
    proof {
        assert(texts(paths@) =~= Seq::empty());
        reveal_strlit("");
        assert(""@ =~= Seq::empty());
    }
    enumerate_dir(entries, "", &filter, &mut paths);
    proof {
        let all = files_in(
            *entries,
            entries@.len(),
            Seq::empty(),
            filter.includes(),
            filter.excludes(),
        );
        assert(Seq::<Seq<char>>::empty() + all =~= all);
    }
    match with_uris(paths.as_slice()) {
        Ok(found) => Ok(PathEnumeration::Complete(rank(found))),
        Err(e) => Err(e),
    }
}

// ---------------------------------------------------------------------------
// Laws
// ---------------------------------------------------------------------------

/// `entries` with the contents of entry `k` replaced.
pub open spec fn same_but_for(a: Vec<DirEntry>, b: Vec<DirEntry>, k: int) -> bool {
    &&& a@.len() == b@.len()
    &&& forall|i: int| 0 <= i < a@.len() && i != k ==> #[trigger] a@[i] == b@[i]
    &&& 0 <= k < a@.len() ==> a@[k].name@ == b@[k].name@
}

/// What an excluded entry holds does not matter, so it need not be read.
pub proof fn law_excluded_entries_need_not_be_read(
    a: Vec<DirEntry>,
    b: Vec<DirEntry>,
    k: int,
    n: nat,
    dir: Seq<char>,
    includes: Seq<Seq<char>>,
    exclude: Seq<Seq<char>>,
)
    requires
        same_but_for(a, b, k),
        0 <= k < a@.len(),
        is_excluded(exclude, relative_path(dir, a@[k].name@), a@[k].name@),
    ensures
        files_in(a, n, dir, includes, exclude) == files_in(b, n, dir, includes, exclude),
    decreases n,
{
    if 0 < n <= a@.len() {
        law_excluded_entries_need_not_be_read(
            a,
            b,
            k,
            (n - 1) as nat,
            dir,
            includes,
            exclude,
        );
        if n - 1 != k {
            assert(a@[n - 1] == b@[n - 1]);
        }
    }
}

/// Without patterns, every file of a directory is found.
pub proof fn law_files_without_patterns_are_found(
    entries: Vec<DirEntry>,
    i: int,
    n: nat,
    dir: Seq<char>,
)
    requires
        0 <= i < n <= entries@.len(),
        entries@[i].node is File,
    ensures
        files_in(entries, n, dir, Seq::empty(), Seq::empty()).contains(
            entries@[i].node->path@,
        ),
    decreases n,
{
    let none = Seq::<Seq<char>>::empty();
    let before = files_in(entries, (n - 1) as nat, dir, none, none);
    let all = files_in(entries, n, dir, none, none);
    let entry = entries@[n - 1];
    let relative = relative_path(dir, entry.name@);
    assert(!is_excluded(none, relative, entry.name@));
    if i < n - 1 {
        law_files_without_patterns_are_found(entries, i, (n - 1) as nat, dir);
        let k = before.index_of(entries@[i].node->path@);
        assert(all[k] == before[k]);
    } else {
        let own = files_at(entry.node, relative, none, none);
        assert(own[0] == entry.node->path@);
        assert(all[before.len() as int] == own[0]);
    }
}

/// Enumerated files are in the order of their paths, and none is lost or added.
pub proof fn law_enumeration_is_sorted(found: Seq<FoundFile>)
    ensures
        ranked(found).to_multiset() == found.to_multiset(),
        forall|i: int, j: int|
            0 <= i < j < ranked(found).len() ==> !text_before(
                path_order((#[trigger] ranked(found)[j]).path@),
                path_order((#[trigger] ranked(found)[i]).path@),
            ),
{
    law_ranked(found);
    assert forall|i: int, j: int| 0 <= i < j < ranked(found).len() implies !text_before(
        path_order((#[trigger] ranked(found)[j]).path@),
        path_order((#[trigger] ranked(found)[i]).path@),
    ) by {
        assert(!ranks_before(ranked(found)[j].rank_key(), ranked(found)[i].rank_key()));
    }
}

} // verus!
