//! Canonical URIs.

use vstd::prelude::*;
use vstd::string::*;

verus! {

/// The canonical spelling that the `url` crate gives a URL, where it parses.
pub uninterp spec fn url_spelling(text: Seq<char>) -> Option<Seq<char>>;

/// The last segment of the path of a URL that has one.
pub uninterp spec fn url_last_segment(text: Seq<char>) -> Option<Seq<char>>;

/// The scheme of a URL, where the text is one.
pub uninterp spec fn url_scheme(text: Seq<char>) -> Option<Seq<char>>;

/// The `file` URL of an absolute path.
pub uninterp spec fn file_url(path: Seq<char>) -> Option<Seq<char>>;

/// `url::Url::parse`: the canonical spelling of the URL that `text` is, or
/// nothing where it is none. It depends on the text alone.
#[verifier::external_body]
fn parse_url(text: &str) -> (r: Option<String>)
    ensures
        r is Some == url_spelling(text@) is Some,
        r matches Some(s) ==> url_spelling(text@) == Some(s@),
{
    url::Url::parse(text).ok().map(|u| u.as_str().to_string())
}

/// `url::Url::path_segments`, last segment: nothing where `text` is no URL or
/// its path has no segments. It depends on the text alone.
#[verifier::external_body]
fn last_path_segment(text: &str) -> (r: Option<String>)
    ensures
        r is Some == url_last_segment(text@) is Some,
        r matches Some(s) ==> url_last_segment(text@) == Some(s@),
{
    let url = url::Url::parse(text).ok()?;
    let last = url.path_segments()?.next_back()?;
    Some(last.to_string())
}

/// `url::Url::scheme` of the URL that `text` is, in lower case and without the
/// colon, or nothing where it is none. It depends on the text alone.
#[verifier::external_body]
fn scheme_of(text: &str) -> (r: Option<String>)
    ensures
        r is Some == url_scheme(text@) is Some,
        r matches Some(s) ==> url_scheme(text@) == Some(s@),
{
    url::Url::parse(text).ok().map(|u| u.scheme().to_string())
}

/// `url::Url::from_file_path`: the `file` URL of `path`, percent-encoded, or
/// nothing where the path is not absolute. On the platform that the crate is
/// built for, it depends on the path alone.
#[verifier::external_body]
fn url_from_path(path: &str) -> (r: Option<String>)
    ensures
        r is Some == file_url(path@) is Some,
        r matches Some(s) ==> file_url(path@) == Some(s@),
{
    url::Url::from_file_path(path).ok().map(|u| u.as_str().to_string())
}

/// A canonical URI.
#[derive(Debug, PartialEq, Eq)]
pub struct Uri {
    spelling: String,
}

impl View for Uri {
    type V = Seq<char>;

    closed spec fn view(&self) -> Seq<char> {
        self.spelling@
    }
}

impl Clone for Uri {
    fn clone(&self) -> (r: Uri)
        ensures
            r == *self,
    {
        Uri { spelling: self.spelling.clone() }
    }
}

impl Uri {
    /// The canonical form of `text`, where it is a URI.
    pub fn parse(text: &str) -> (r: Option<Uri>)
        ensures
            r is Some == url_spelling(text@) is Some,
            r matches Some(u) ==> url_spelling(text@) == Some(u@),
    {
        match parse_url(text) {
            Some(spelling) => Some(Uri { spelling }),
            None => None,
        }
    }

    /// The `file` URI of an absolute path.
    pub fn from_file_path(path: &str) -> (r: Option<Uri>)
        ensures
            r is Some == file_url(path@) is Some,
            r matches Some(u) ==> file_url(path@) == Some(u@),
    {
        match url_from_path(path) {
            Some(spelling) => Some(Uri { spelling }),
            None => None,
        }
    }

    /// The canonical spelling.
    pub fn as_str(&self) -> (r: &str)
        ensures
            r@ == self@,
    {
        self.spelling.as_str()
    }

    /// The scheme of `text`, where it is a URI.
    pub fn scheme_of_text(text: &str) -> (r: Option<String>)
        ensures
            r is Some == url_scheme(text@) is Some,
            r matches Some(s) ==> url_scheme(text@) == Some(s@),
    {
        scheme_of(text)
    }

    /// The last segment of the path, where the URI has a path of segments.
    pub fn last_segment(&self) -> (r: Option<String>)
        ensures
            r is Some == url_last_segment(self@) is Some,
            r matches Some(s) ==> url_last_segment(self@) == Some(s@),
    {
        last_path_segment(self.spelling.as_str())
    }
}

} // verus!
