//! Glob patterns and sets of them.
//!
//! In every pattern `*` and `?` stop at `/`, and `**` does not.

use globset::{Glob, GlobBuilder, GlobSet, GlobSetBuilder};
use vstd::prelude::*;
use vstd::string::*;

use crate::error::{fails_with, Error, ErrorView};
use crate::text::texts;

verus! {

/// A compiled glob pattern.
#[verifier::external_type_specification]
#[verifier::external_body]
pub struct ExGlob(globset::Glob);

/// A set of compiled patterns.
#[verifier::external_type_specification]
#[verifier::external_body]
pub struct ExGlobSet(globset::GlobSet);

/// A set of compiled patterns that is being filled.
#[verifier::external_type_specification]
#[verifier::external_body]
pub struct ExGlobSetBuilder(globset::GlobSetBuilder);

/// Why a pattern whose wildcards `*` and `?` do not match a slash does not
/// compile, where it does not.
pub uninterp spec fn pattern_error(pattern: Seq<char>) -> Option<Seq<char>>;

/// Why patterns that compile one by one do not compile as a set, where they do
/// not.
pub uninterp spec fn pattern_set_error(patterns: Seq<Seq<char>>) -> Option<Seq<char>>;

/// Whether a pattern whose wildcards `*` and `?` do not match a slash matches a
/// path.
pub uninterp spec fn glob_matches(pattern: Seq<char>, path: Seq<char>) -> bool;

/// The text that a pattern was compiled from, its wildcards `*` and `?` not
/// matching a slash.
pub uninterp spec fn glob_source(glob: globset::Glob) -> Seq<char>;

/// The patterns of a set that is being filled, in order.
pub uninterp spec fn builder_patterns(builder: globset::GlobSetBuilder) -> Seq<Seq<char>>;

/// The patterns of a set, in order.
pub uninterp spec fn set_patterns(set: globset::GlobSet) -> Seq<Seq<char>>;

/// `globset::GlobBuilder::build` with `literal_separator(true)`: the compiled
/// pattern, or why it does not compile. The outcome depends on the pattern
/// alone.
#[verifier::external_body]
fn compile_glob(pattern: &str) -> (r: Result<Glob, String>)
    ensures
        match r {
            Ok(glob) => pattern_error(pattern@) is None && glob_source(glob) == pattern@,
            Err(why) => pattern_error(pattern@) == Some(why@),
        },
{
    GlobBuilder::new(pattern).literal_separator(true).build().map_err(|e| e.to_string())
}

/// `globset::GlobSetBuilder::new`: a set without patterns.
#[verifier::external_body]
fn new_glob_set_builder() -> (r: GlobSetBuilder)
    ensures
        builder_patterns(r) == Seq::<Seq<char>>::empty(),
{
    GlobSetBuilder::new()
}

/// `globset::GlobSetBuilder::add`: appends one pattern.
#[verifier::external_body]
fn add_glob(builder: &mut GlobSetBuilder, glob: Glob)
    ensures
        builder_patterns(*final(builder)) == builder_patterns(*old(builder)).push(
            glob_source(glob),
        ),
{
    builder.add(glob);
}

/// `globset::GlobSetBuilder::build`: the set of the patterns that were added, or
/// why they do not compile as a set. The outcome depends on the patterns alone.
#[verifier::external_body]
fn finish_glob_set(builder: &GlobSetBuilder) -> (r: Result<GlobSet, String>)
    ensures
        match r {
            Ok(set) => pattern_set_error(builder_patterns(*builder)) is None && set_patterns(set)
                == builder_patterns(*builder),
            Err(why) => pattern_set_error(builder_patterns(*builder)) == Some(why@),
        },
{
    builder.build().map_err(|e| e.to_string())
}

/// Whether any of `patterns` matches `path`.
pub open spec fn any_matches(patterns: Seq<Seq<char>>, path: Seq<char>) -> bool {
    exists|i: int| 0 <= i < patterns.len() && glob_matches(#[trigger] patterns[i], path)
}

/// `globset::GlobSet::is_match`: whether any pattern of the set matches `path`.
#[verifier::external_body]
pub(crate) fn set_is_match(set: &GlobSet, path: &str) -> (r: bool)
    ensures
        r == (exists|i: int|
            0 <= i < set_patterns(*set).len() && glob_matches(
                #[trigger] set_patterns(*set)[i],
                path@,
            )),
{
    set.is_match(path)
}

/// The error for a list of patterns: that of the first that does not compile,
/// and otherwise that of the whole set.
pub open spec fn globs_error(patterns: Seq<Seq<char>>, from: int) -> Option<ErrorView>
    decreases patterns.len() - from,
{
    if from < 0 || from >= patterns.len() {
        match pattern_set_error(patterns) {
            Some(t) => Some(ErrorView::InvalidConfig { message: "failed to build glob set: "@ + t }),
            None => None,
        }
    } else {
        match pattern_error(patterns[from]) {
            Some(t) => Some(
                ErrorView::InvalidConfig {
                    message: "invalid glob pattern '"@ + patterns[from] + "': "@ + t,
                },
            ),
            None => globs_error(patterns, from + 1),
        }
    }
}

/// The message for a pattern that does not compile.
pub fn invalid_pattern_message(pattern: &str, why: &str) -> (r: String)
    ensures
        r@ == "invalid glob pattern '"@ + pattern@ + "': "@ + why@,
{
    let mut message = "invalid glob pattern '".to_owned();
    message.append(pattern);
    message.append("': ");
    message.append(why);
    message
}

/// Compiles a list of patterns into a set.
pub fn build_glob_set(patterns: &[String]) -> (r: Result<GlobSet, Error>)
    ensures
        match globs_error(texts(patterns@), 0) {
            Some(e) => fails_with(r, e),
            None => r is Ok,
        },
        r matches Ok(set) ==> set_patterns(set) == texts(patterns@),
{
    let ghost all = texts(patterns@);
    let mut builder = new_glob_set_builder();
    let n: usize = patterns.len();
    let mut i: usize = 0;
    while i < n
        invariant
            0 <= i <= n,
            n == patterns@.len(),
            all == texts(patterns@),
            builder_patterns(builder) =~= all.take(i as int),
            globs_error(all, 0) == globs_error(all, i as int),
        decreases n - i,
    {
        let pattern = patterns[i].as_str();
        proof {
            assert(all[i as int] == pattern@);
        }
        match compile_glob(pattern) {
            Ok(glob) => {
                add_glob(&mut builder, glob);
            },
            Err(why) => {
                let message = invalid_pattern_message(pattern, why.as_str());
                return Err(Error::InvalidConfig { message });
            },
        }
        i += 1;
    }
    proof {
        assert(all.take(n as int) =~= all);
    }
    match finish_glob_set(&builder) {
        Ok(set) => Ok(set),
        Err(why) => {
            let mut message = "failed to build glob set: ".to_owned();
            message.append(why.as_str());
            Err(Error::InvalidConfig { message })
        },
    }
}

/// Whether one pattern matches a path. A pattern that does not compile matches
/// nothing.
pub fn glob_match(pattern: &str, path: &str) -> (r: bool)
    ensures
        r == (globs_error(seq![pattern@], 0) is None && glob_matches(pattern@, path@)),
{
    let mut patterns: Vec<String> = Vec::new();
    patterns.push(pattern.to_owned());
    proof {
        assert(texts(patterns@) =~= seq![pattern@]);
    }
    match build_glob_set(patterns.as_slice()) {
        Ok(set) => {
            proof {
                let s = seq![pattern@];
                assert(s[0] == pattern@);
            }
            set_is_match(&set, path)
        },
        Err(_) => false,
    }
}

} // verus!
