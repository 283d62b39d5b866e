//! What an enumeration finds: every file that it should, at any depth, and no
//! other.

use vstd::prelude::*;
use vstd::string::*;

use crate::enumeration::{
    are_files, files_at, files_in, filter_error, first_without_uri, is_excluded, is_included,
    no_uri_error, path_order, relative_path, DirEntry, DirNode, FoundFile,
};
use crate::error::ErrorView;
use crate::globs::{any_matches, glob_matches, globs_error, pattern_error, pattern_set_error};
use crate::text::{occurs_at, text_before};
use crate::text_laws::contains_text;

verus! {

/// The node to which a way leads: at each step the place of an entry, all but the
/// last of them directories.
pub open spec fn node_at(entries: Vec<DirEntry>, way: Seq<int>) -> Option<DirNode>
    decreases way.len(),
{
    if way.len() == 0 || !(0 <= way[0] < entries@.len()) {
        None
    } else if way.len() == 1 {
        Some(entries@[way[0]].node)
    } else {
        match entries@[way[0]].node {
            DirNode::Directory { entries: below } => node_at(below, way.drop_first()),
            _ => None,
        }
    }
}

/// The path to which a way leads from the directory `dir`, relative to the root.
pub open spec fn path_along(entries: Vec<DirEntry>, dir: Seq<char>, way: Seq<int>) -> Seq<char>
    decreases way.len(),
{
    if way.len() == 0 || !(0 <= way[0] < entries@.len()) {
        dir
    } else {
        let here = if dir.len() == 0 {
            entries@[way[0]].name@
        } else {
            dir + seq!['/'] + entries@[way[0]].name@
        };
        match entries@[way[0]].node {
            DirNode::Directory { entries: below } => path_along(below, here, way.drop_first()),
            _ => here,
        }
    }
}

/// Whether no pattern of exclusion matches what lies on a way, by its relative path
/// or by its name.
pub open spec fn way_is_open(
    entries: Vec<DirEntry>,
    dir: Seq<char>,
    way: Seq<int>,
    exclude: Seq<Seq<char>>,
) -> bool
    decreases way.len(),
{
    if way.len() == 0 || !(0 <= way[0] < entries@.len()) {
        true
    } else {
        let name = entries@[way[0]].name@;
        let here = if dir.len() == 0 {
            name
        } else {
            dir + seq!['/'] + name
        };
        &&& forall|p: int|
            0 <= p < exclude.len() ==> !glob_matches(#[trigger] exclude[p], here) && !glob_matches(
                exclude[p],
                name,
            )
        &&& match entries@[way[0]].node {
            DirNode::Directory { entries: below } => way_is_open(
                below,
                here,
                way.drop_first(),
                exclude,
            ),
            _ => true,
        }
    }
}

/// Whether patterns of inclusion let a relative path in: where there are none, or
/// where one matches.
pub open spec fn lets_in(includes: Seq<Seq<char>>, relative: Seq<char>) -> bool {
    includes.len() == 0 || exists|p: int|
        0 <= p < includes.len() && glob_matches(#[trigger] includes[p], relative)
}

proof fn lemma_relative_path(dir: Seq<char>, name: Seq<char>)
    ensures
        relative_path(dir, name) == (if dir.len() == 0 {
            name
        } else {
            dir + seq!['/'] + name
        }),
{
    reveal_strlit("/");
    assert("/"@ =~= seq!['/']);
}

/// What is found at an entry that is not excluded is found in the directory.
proof fn lemma_entry_is_searched(
    entries: Vec<DirEntry>,
    n: nat,
    i: int,
    dir: Seq<char>,
    includes: Seq<Seq<char>>,
    exclude: Seq<Seq<char>>,
    path: Seq<char>,
)
    requires
        0 <= i < n <= entries@.len(),
        !is_excluded(exclude, relative_path(dir, entries@[i].name@), entries@[i].name@),
        files_at(entries@[i].node, relative_path(dir, entries@[i].name@), includes, exclude).contains(
            path,
        ),
    ensures
        files_in(entries, n, dir, includes, exclude).contains(path),
    decreases n,
{
    let before = files_in(entries, (n - 1) as nat, dir, includes, exclude);
    let all = files_in(entries, n, dir, includes, exclude);
    if i < n - 1 {
        lemma_entry_is_searched(entries, (n - 1) as nat, i, dir, includes, exclude, path);
        let k = before.index_of(path);
        assert(all[k] == path);
    } else {
        let own = files_at(
            entries@[i].node,
            relative_path(dir, entries@[i].name@),
            includes,
            exclude,
        );
        let k = own.index_of(path);
        assert(all[before.len() + k] == path);
    }
}

/// Enumeration is complete at any depth: a file to which a way leads is found if
/// neither it nor a directory above it is excluded and the inclusions let its
/// relative path in.
pub proof fn law_every_open_way_is_found(
    entries: Vec<DirEntry>,
    dir: Seq<char>,
    way: Seq<int>,
    includes: Seq<Seq<char>>,
    exclude: Seq<Seq<char>>,
)
    requires
        node_at(entries, way) matches Some(node) && node is File,
        way_is_open(entries, dir, way, exclude),
        lets_in(includes, path_along(entries, dir, way)),
    ensures
        files_in(entries, entries@.len(), dir, includes, exclude).contains(
            node_at(entries, way)->0->path@,
        ),
    decreases way.len(),
{
    let i = way[0];
    let entry = entries@[i];
    let here = relative_path(dir, entry.name@);
    lemma_relative_path(dir, entry.name@);
    let path = node_at(entries, way)->0->path@;
    let own = files_at(entry.node, here, includes, exclude);
    match entry.node {
        DirNode::Directory { entries: below } => {
            law_every_open_way_is_found(below, here, way.drop_first(), includes, exclude);
        },
        DirNode::File { path: p } => {
            assert(own[0] == p@);
        },
        DirNode::Other => {},
    }
    assert(own.contains(path));
    lemma_entry_is_searched(entries, entries@.len(), i, dir, includes, exclude, path);
}

/// Without patterns every file anywhere in the tree is found.
pub proof fn law_without_patterns_every_file_is_found(
    entries: Vec<DirEntry>,
    dir: Seq<char>,
    way: Seq<int>,
)
    requires
        node_at(entries, way) matches Some(node) && node is File,
    ensures
        files_in(entries, entries@.len(), dir, Seq::empty(), Seq::empty()).contains(
            node_at(entries, way)->0->path@,
        ),
{
    lemma_open_without_patterns(entries, dir, way);
    law_every_open_way_is_found(entries, dir, way, Seq::empty(), Seq::empty());
}

proof fn lemma_open_without_patterns(entries: Vec<DirEntry>, dir: Seq<char>, way: Seq<int>)
    ensures
        way_is_open(entries, dir, way, Seq::empty()),
    decreases way.len(),
{
    if way.len() > 0 && 0 <= way[0] < entries@.len() {
        let name = entries@[way[0]].name@;
        let here = if dir.len() == 0 {
            name
        } else {
            dir + seq!['/'] + name
        };
        if let DirNode::Directory { entries: below } = entries@[way[0]].node {
            lemma_open_without_patterns(below, here, way.drop_first());
        }
    }
}

/// What is found is there: an open way leads to a file of that path, and the
/// inclusions let its relative path in.
pub proof fn law_what_is_found_is_there(
    entries: Vec<DirEntry>,
    n: nat,
    dir: Seq<char>,
    includes: Seq<Seq<char>>,
    exclude: Seq<Seq<char>>,
    path: Seq<char>,
) -> (way: Seq<int>)
    requires
        n <= entries@.len(),
        files_in(entries, n, dir, includes, exclude).contains(path),
    ensures
        node_at(entries, way) matches Some(node) && node is File && node->path@ == path,
        way_is_open(entries, dir, way, exclude),
        lets_in(includes, path_along(entries, dir, way)),
        way.len() > 0 && way[0] < n,
    decreases entries, n,
{
    let all = files_in(entries, n, dir, includes, exclude);
    assert(n > 0);
    let i = n - 1;
    let before = files_in(entries, i as nat, dir, includes, exclude);
    let entry = entries@[i];
    let here = relative_path(dir, entry.name@);
    lemma_relative_path(dir, entry.name@);
    if before.contains(path) {
        law_what_is_found_is_there(entries, i as nat, dir, includes, exclude, path)
    } else {
        let own = files_at(entry.node, here, includes, exclude);
        let k = all.index_of(path);
        if k < before.len() {
            assert(before[k] == path);
        }
        assert(own[k - before.len()] == path);
        assert(own.contains(path));
        match entry.node {
            DirNode::Directory { entries: below } => {
                assert(decreases_to!(entries => entries[i]));
                assert(decreases_to!(entries[i] => entries[i].node));
                assert(decreases_to!(entries[i].node => below));
                let inner = law_what_is_found_is_there(
                    below,
                    below@.len(),
                    here,
                    includes,
                    exclude,
                    path,
                );
                let way = seq![i as int] + inner;
                assert(way.drop_first() =~= inner);
                way
            },
            _ => {
                let way = seq![i as int];
                way
            },
        }
    }
}

/// What is found in entries that lie side by side is found in each of them, in
/// their order, so that a file that is listed once is found once.
pub proof fn law_entries_are_searched_in_order(
    entries: Vec<DirEntry>,
    n: nat,
    dir: Seq<char>,
    includes: Seq<Seq<char>>,
    exclude: Seq<Seq<char>>,
)
    requires
        0 < n <= entries@.len(),
    ensures
        files_in(entries, 0, dir, includes, exclude).len() == 0,
        files_in(entries, (n - 1) as nat, dir, includes, exclude).is_prefix_of(
            files_in(entries, n, dir, includes, exclude),
        ),
        entries@[n - 1].node is File ==> files_in(entries, n, dir, includes, exclude).len()
            <= files_in(entries, (n - 1) as nat, dir, includes, exclude).len() + 1,
        entries@[n - 1].node is Other ==> files_in(entries, n, dir, includes, exclude)
            == files_in(entries, (n - 1) as nat, dir, includes, exclude),
        entries@[n - 1].node matches DirNode::Directory { entries: below } ==> files_in(
            entries,
            n,
            dir,
            includes,
            exclude,
        ).len() <= files_in(entries, (n - 1) as nat, dir, includes, exclude).len() + files_in(
            below,
            below@.len(),
            relative_path(dir, entries@[n - 1].name@),
            includes,
            exclude,
        ).len(),
{
    let before = files_in(entries, (n - 1) as nat, dir, includes, exclude);
    let own = files_at(
        entries[n - 1].node,
        relative_path(dir, entries[n - 1].name@),
        includes,
        exclude,
    );
    match entries[n - 1].node {
        DirNode::Other => {
            assert(own =~= Seq::empty());
            assert(before + own =~= before);
        },
        DirNode::File { path } => {
            assert(own.len() <= 1);
        },
        _ => {},
    }
}

/// A path is excluded if and only if some pattern matches it or its name, and
/// matching any pattern is matching one of them.
pub proof fn law_exclusion_and_inclusion(
    patterns: Seq<Seq<char>>,
    relative: Seq<char>,
    name: Seq<char>,
)
    ensures
        any_matches(patterns, relative) <==> exists|p: int|
            0 <= p < patterns.len() && glob_matches(#[trigger] patterns[p], relative),
        is_excluded(patterns, relative, name) <==> exists|p: int|
            0 <= p < patterns.len() && (glob_matches(#[trigger] patterns[p], relative)
                || glob_matches(patterns[p], name)),
        is_included(patterns, relative) <==> lets_in(patterns, relative),
{
    if any_matches(patterns, relative) {
        let p = choose|p: int|
            0 <= p < patterns.len() && glob_matches(#[trigger] patterns[p], relative);
        assert(glob_matches(patterns[p], relative));
    }
    if any_matches(patterns, name) {
        let p = choose|p: int| 0 <= p < patterns.len() && glob_matches(#[trigger] patterns[p], name);
        assert(glob_matches(patterns[p], name));
    }
}

/// Patterns are accepted if and only if each compiles and all do together, and the
/// first that does not is named.
pub proof fn law_patterns_are_checked_in_order(patterns: Seq<Seq<char>>, from: int, k: int)
    requires
        0 <= from <= patterns.len(),
    ensures
        globs_error(patterns, from) is None <==> (forall|i: int|
            from <= i < patterns.len() ==> pattern_error(#[trigger] patterns[i]) is None)
            && pattern_set_error(patterns) is None,
        from <= k < patterns.len() && pattern_error(patterns[k]) is Some && (forall|i: int|
            from <= i < k ==> pattern_error(#[trigger] patterns[i]) is None) ==> globs_error(
            patterns,
            from,
        ) == Some(
            ErrorView::InvalidConfig {
                message: "invalid glob pattern '"@ + patterns[k] + "': "@ + pattern_error(
                    patterns[k],
                )->0,
            },
        ),
    decreases patterns.len() - from,
{
    if from < patterns.len() {
        law_patterns_are_checked_in_order(patterns, from + 1, k);
    }
}

/// The inclusions are checked before the exclusions, and both are.
pub proof fn law_both_pattern_lists_are_checked(
    includes: Seq<Seq<char>>,
    exclude: Seq<Seq<char>>,
)
    ensures
        filter_error(includes, exclude) is None <==> globs_error(includes, 0) is None
            && globs_error(exclude, 0) is None,
        globs_error(includes, 0) is Some ==> filter_error(includes, exclude) == globs_error(
            includes,
            0,
        ),
{
}

/// Files have the paths that were found and the URIs of these, and a path without
/// a URI is named, the first if there are several.
pub proof fn law_files_have_their_uris(
    files: Seq<FoundFile>,
    paths: Seq<Seq<char>>,
    from: int,
    k: int,
)
    requires
        0 <= from <= paths.len(),
    ensures
        are_files(files, paths) && 0 <= k < files.len() ==> files.len() == paths.len()
            && files[k].path@ == paths[k] && crate::uri::file_url(paths[k]) == Some(files[k].uri@),
        first_without_uri(paths, from) is None <==> forall|i: int|
            from <= i < paths.len() ==> crate::uri::file_url(#[trigger] paths[i]) is Some,
        from <= k < paths.len() && crate::uri::file_url(paths[k]) is None && (forall|i: int|
            from <= i < k ==> crate::uri::file_url(#[trigger] paths[i]) is Some)
            ==> first_without_uri(paths, from) == Some(paths[k]),
    decreases paths.len() - from,
{
    if from < paths.len() {
        law_files_have_their_uris(files, paths, from + 1, k);
    }
}

/// Paths are in the order of their components: where two differ first, the one
/// whose component ends there comes first, and otherwise the smaller character
/// decides.
pub proof fn law_paths_order_by_components(a: Seq<char>, b: Seq<char>, k: int)
    requires
        0 <= k < a.len(),
        k < b.len(),
        forall|i: int| 0 <= i < k ==> a[i] == b[i],
        a[k] != b[k],
        a[k] != '\0',
        b[k] != '\0',
    ensures
        text_before(path_order(a), path_order(b)) <==> a[k] == '/' || (b[k] != '/' && (a[k] as u32)
            < (b[k] as u32)),
    decreases k,
{
    let x = path_order(a);
    let y = path_order(b);
    if k == 0 {
        lemma_not_nul(a[0]);
        lemma_not_nul(b[0]);
    } else {
        assert(a.drop_first()[k - 1] == a[k]);
        assert(b.drop_first()[k - 1] == b[k]);
        assert forall|i: int| 0 <= i < k - 1 implies a.drop_first()[i] == b.drop_first()[i] by {
            assert(a[i + 1] == b[i + 1]);
        }
        law_paths_order_by_components(a.drop_first(), b.drop_first(), k - 1);
        assert(x.drop_first() =~= path_order(a.drop_first()));
        assert(y.drop_first() =~= path_order(b.drop_first()));
        assert(a[0] == b[0]);
    }
}

proof fn lemma_not_nul(c: char)
    requires
        c != '\0',
    ensures
        (c as u32) > 0,
{
}

/// What is said of a file without a URI names its path, once between quotes.
pub proof fn law_missing_uri_names_the_path(path: Seq<char>)
    ensures
        no_uri_error(path) matches ErrorView::Internal { message, correlation_id }
            && correlation_id == "enumerate_dir"@ && contains_text(message, "'"@ + path + "'"@),
{
    reveal_strlit("'");
    reveal_strlit("cannot build a file:// URI for non-absolute path '");
    reveal_strlit("' (canonicalization failed and the source root is relative)");
    let a = "cannot build a file:// URI for non-absolute path '"@;
    let b = "' (canonicalization failed and the source root is relative)"@;
    let message = a + path + b;
    let k = a.len() - 1;
    assert(a.last() == '\'' && b[0] == '\'');
    assert(message.subrange(k, k + path.len() + 2) =~= "'"@ + path + "'"@);
    assert(occurs_at(message, "'"@ + path + "'"@, k));
}

} // verus!
