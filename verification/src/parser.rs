//! Document parsers and their chain.
//!
//! A parser declines an input, handles it, or fails on a format that it
//! recognised. A chain asks its parsers in order and stops at the first that
//! does not decline.

use vstd::prelude::*;
use vstd::slice::*;
use vstd::string::*;
use vstd::utf8::*;

use crate::chunker::borrowed_text;
use crate::error::Error;
use crate::metadata::{no_metadata, DublinCoreMetadata};
use crate::text::{chars_of, text_of};

verus! {

/// Number of leading bytes that are offered for sniffing.
pub const PROBE_HEADER_LEN: usize = 8192;

/// `s` in lower case, as Unicode defines it.
pub uninterp spec fn lowercased(s: Seq<char>) -> Seq<char>;

/// An ASCII letter in lower case; any other character as it is.
pub open spec fn ascii_lower(c: char) -> char {
    if 'A' <= c <= 'Z' {
        (c as u32 + 32) as char
    } else {
        c
    }
}

/// `str::to_lowercase`: the lower case of `s`, which depends on `s` alone. An
/// ASCII text keeps its length, and each of its letters is put in lower case.
#[verifier::external_body]
fn to_lower(s: &str) -> (r: String)
    ensures
        r@ == lowercased(s@),
        s.is_ascii() ==> r@ == s@.map_values(|c: char| ascii_lower(c)),
{
    s.to_lowercase()
}

/// An input as parsers see it: the whole content, and hints.
pub struct Probe<'a> {
    bytes: &'a [u8],
    /// File name or URL path.
    pub path_hint: Option<&'a str>,
    /// MIME type inferred before parsing; it may be wrong.
    pub sniffed_mime: Option<&'a str>,
}

/// The part of a path behind its last slash.
pub open spec fn base_name(path: Seq<char>) -> Seq<char>
    decreases path.len(),
{
    if path.len() == 0 || path.last() == '/' {
        Seq::empty()
    } else {
        base_name(path.drop_last()).push(path.last())
    }
}

/// The position of the last dot of `s`, before position `i`.
pub open spec fn last_dot(s: Seq<char>, i: int) -> Option<int>
    decreases i,
{
    if i <= 0 {
        None
    } else if s[i - 1] == '.' {
        Some(i - 1)
    } else {
        last_dot(s, i - 1)
    }
}

/// The extension of the last component of a path: what follows its last dot,
/// unless the dot comes first.
pub open spec fn path_extension(path: Seq<char>) -> Option<Seq<char>> {
    let name = base_name(path);
    match last_dot(name, name.len() as int) {
        Some(dot) if dot > 0 => Some(name.subrange(dot + 1, name.len() as int)),
        _ => None,
    }
}

proof fn lemma_base_name(path: Seq<char>, from: int)
    requires
        0 <= from <= path.len(),
        forall|k: int| from <= k < path.len() ==> path[k] != '/',
        from > 0 ==> path[from - 1] == '/',
    ensures
        base_name(path) == path.subrange(from, path.len() as int),
    decreases path.len() - from,
{
    if from < path.len() {
        lemma_base_name(path.drop_last(), from);
        assert(path.drop_last().subrange(from, path.len() - 1).push(path.last())
            =~= path.subrange(from, path.len() as int));
    } else {
        assert(path.subrange(from, path.len() as int) =~= Seq::empty());
    }
}

impl<'a> Probe<'a> {
    /// The whole content.
    pub closed spec fn content(self) -> Seq<u8> {
        self.bytes@
    }

    /// The path hint.
    pub closed spec fn path(self) -> Option<Seq<char>> {
        borrowed_text(self.path_hint)
    }

    /// The MIME type inferred before parsing.
    pub closed spec fn mime(self) -> Option<Seq<char>> {
        borrowed_text(self.sniffed_mime)
    }

    pub fn new(bytes: &'a [u8], path_hint: Option<&'a str>, sniffed_mime: Option<&'a str>) -> (r:
        Probe<'a>)
        ensures
            r.content() == bytes@,
            r.path() == borrowed_text(path_hint),
            r.mime() == borrowed_text(sniffed_mime),
    {
        Probe { bytes, path_hint, sniffed_mime }
    }

    /// Up to [`PROBE_HEADER_LEN`] leading bytes.
    pub fn header(&self) -> (r: &[u8])
        ensures
            r@ == (if self.content().len() <= PROBE_HEADER_LEN {
                self.content()
            } else {
                self.content().subrange(0, PROBE_HEADER_LEN as int)
            }),
    {
        if self.bytes.len() <= PROBE_HEADER_LEN {
            self.bytes
        } else {
            slice_subrange(self.bytes, 0, PROBE_HEADER_LEN)
        }
    }

    /// The whole content.
    pub fn bytes(&self) -> (r: &[u8])
        ensures
            r@ == self.content(),
    {
        self.bytes
    }

    /// The extension of the path hint, in lower case and without the dot.
    pub fn extension(&self) -> (r: Option<String>)
        ensures
            match self.path() {
                Some(path) => match path_extension(path) {
                    Some(e) => r matches Some(x) && x@ == lowercased(e) && (is_ascii_chars(e)
                        ==> x@ == e.map_values(|c: char| ascii_lower(c))),
                    None => r is None,
                },
                None => r is None,
            },
    {
        let path = match self.path_hint {
            Some(path) => path,
            None => {
                return None;
            },
        };
        let chars = chars_of(path);
        let n: usize = chars.len();
        let mut from: usize = n;
        while from > 0 && chars[from - 1] != '/'
            invariant
                0 <= from <= n,
                n == chars@.len(),
                chars@ == path@,
                forall|k: int| from <= k < n ==> path@[k] != '/',
            decreases from,
        {
            from -= 1;
        }
        let ghost name = path@.subrange(from as int, n as int);
        proof {
            lemma_base_name(path@, from as int);
        }
        let mut i: usize = n;
        while i > from
            invariant
                from <= i <= n,
                n == chars@.len(),
                chars@ == path@,
                name == path@.subrange(from as int, n as int),
                name == base_name(path@),
                self.path() == Some(path@),
                last_dot(name, name.len() as int) == last_dot(name, i - from),
            decreases i,
        {
            proof {
                assert(name[i - from - 1] == path@[i - 1]);
            }
            if chars[i - 1] == '.' {
                if i - 1 == from {
                    return None;
                }
                let extension = text_of(chars.as_slice(), i, n);
                proof {
                    assert(extension@ =~= name.subrange(i - from, name.len() as int));
                }
                return Some(to_lower(extension.as_str()));
            }
            i -= 1;
        }
        None
    }
}

/// A document as a parser hands it over.
#[derive(Clone, Debug, PartialEq, Eq)]
pub struct ParsedDocument {
    /// The text, normalised to Markdown.
    pub markdown: String,
    pub title: Option<String>,
    pub metadata: DublinCoreMetadata,
    /// First byte and number of each page, ascending; empty without pages.
    pub page_starts: Vec<(usize, u32)>,
}

impl Default for ParsedDocument {
    fn default() -> (r: ParsedDocument)
        ensures
            r.markdown@ == Seq::<char>::empty(),
            r.title is None,
            r.metadata@ == no_metadata(),
            r.page_starts@ == Seq::<(usize, u32)>::empty(),
    {
        ParsedDocument {
            markdown: String::new(),
            title: None,
            metadata: DublinCoreMetadata::default(),
            page_starts: Vec::new(),
        }
    }
}

/// A parser of documents.
pub trait Parser: Send + Sync {
    /// What the parser makes of an input.
    open spec fn outcome(&self, probe: &Probe) -> Result<Option<ParsedDocument>, Error> {
        arbitrary()
    }

    /// Stable id of the parser.
    fn id(&self) -> &'static str;

    /// Tries to parse an input: `Ok(None)` declines it, `Ok(Some(..))` is the
    /// document, and `Err(..)` says that the format was recognised and parsing
    /// failed.
    fn parse(&self, probe: &Probe) -> (r: Result<Option<ParsedDocument>, Error>)
        ensures
            r == self.outcome(probe),
    ;
}

/// What a chain of parsers makes of an input: the outcome of the first parser,
/// from `from` on, that does not decline it.
pub open spec fn first_outcome(
    parsers: Seq<Box<dyn Parser>>,
    probe: &Probe,
    from: int,
) -> Result<Option<ParsedDocument>, Error>
    decreases parsers.len() - from,
{
    if from < 0 || from >= parsers.len() {
        Ok(None)
    } else {
        match parsers[from].outcome(probe) {
            Ok(None) => first_outcome(parsers, probe, from + 1),
            decided => decided,
        }
    }
}

/// Asks its parsers in order; the first that does not decline decides.
pub struct ChainParser {
    id: &'static str,
    parsers: Vec<Box<dyn Parser>>,
}

impl ChainParser {
    /// The parsers of the chain, in order.
    pub closed spec fn chain(self) -> Seq<Box<dyn Parser>> {
        self.parsers@
    }

    /// The id of the chain.
    pub closed spec fn name(self) -> Seq<char> {
        self.id@
    }

    pub fn new(id: &'static str, parsers: Vec<Box<dyn Parser>>) -> (r: ChainParser)
        ensures
            r.chain() == parsers@,
            r.name() == id@,
    {
        ChainParser { id, parsers }
    }

    /// The parsers of the chain, in order.
    pub fn parsers(&self) -> (r: &[Box<dyn Parser>])
        ensures
            r@ == self.chain(),
    {
        self.parsers.as_slice()
    }
}

impl Parser for ChainParser {
    closed spec fn outcome(&self, probe: &Probe) -> Result<Option<ParsedDocument>, Error> {
        first_outcome(self.chain(), probe, 0)
    }

    fn id(&self) -> (r: &'static str)
        ensures
            r@ == self.name(),
    {
        self.id
    }

    fn parse(&self, probe: &Probe) -> (r: Result<Option<ParsedDocument>, Error>)
        ensures
            r == first_outcome(self.chain(), probe, 0),
    {
        let n: usize = self.parsers.len();
        let mut i: usize = 0;
        while i < n
            invariant
                0 <= i <= n,
                n == self.parsers@.len(),
                first_outcome(self.parsers@, probe, 0) == first_outcome(
                    self.parsers@,
                    probe,
                    i as int,
                ),
            decreases n - i,
        {
            let outcome = self.parsers[i].parse(probe);
            match outcome {
                Ok(None) => {},
                decided => {
                    return decided;
                },
            }
            i += 1;
        }
        Ok(None)
    }
}

/// The first parser of a chain that does not decline decides, and those behind
/// it have no say.
pub proof fn law_first_decision_wins(parsers: Seq<Box<dyn Parser>>, probe: &Probe, i: int)
    requires
        0 <= i < parsers.len(),
        forall|k: int| 0 <= k < i ==> (#[trigger] parsers[k]).outcome(probe) == Ok::<
            Option<ParsedDocument>,
            Error,
        >(None),
        parsers[i].outcome(probe) != Ok::<Option<ParsedDocument>, Error>(None),
    ensures
        first_outcome(parsers, probe, 0) == parsers[i].outcome(probe),
{
    lemma_declines_are_passed(parsers, probe, 0, i);
}

proof fn lemma_declines_are_passed(
    parsers: Seq<Box<dyn Parser>>,
    probe: &Probe,
    from: int,
    i: int,
)
    requires
        0 <= from <= i < parsers.len(),
        forall|k: int| from <= k < i ==> (#[trigger] parsers[k]).outcome(probe) == Ok::<
            Option<ParsedDocument>,
            Error,
        >(None),
    ensures
        first_outcome(parsers, probe, from) == first_outcome(parsers, probe, i),
    decreases i - from,
{
    if from < i {
        assert(parsers[from].outcome(probe) == Ok::<Option<ParsedDocument>, Error>(None));
        lemma_declines_are_passed(parsers, probe, from + 1, i);
    }
}

/// A chain all of whose parsers decline declines.
pub proof fn law_all_decline(parsers: Seq<Box<dyn Parser>>, probe: &Probe, from: int)
    requires
        0 <= from <= parsers.len(),
        forall|k: int| 0 <= k < parsers.len() ==> (#[trigger] parsers[k]).outcome(probe) == Ok::<
            Option<ParsedDocument>,
            Error,
        >(None),
    ensures
        first_outcome(parsers, probe, from) == Ok::<Option<ParsedDocument>, Error>(None),
    decreases parsers.len() - from,
{
    if from < parsers.len() {
        assert(parsers[from].outcome(probe) == Ok::<Option<ParsedDocument>, Error>(None));
        law_all_decline(parsers, probe, from + 1);
    }
}

/// The last component of a path is what stands behind its last slash.
pub proof fn law_base_name(path: Seq<char>)
    ensures
        !base_name(path).contains('/'),
        base_name(path).len() <= path.len(),
        path.skip(path.len() - base_name(path).len()) == base_name(path),
        base_name(path).len() < path.len() ==> path[path.len() - base_name(path).len() - 1] == '/',
    decreases path.len(),
{
    if path.len() == 0 || path.last() == '/' {
        assert(path.skip(path.len() as int) =~= Seq::empty());
    } else {
        let front = path.drop_last();
        law_base_name(front);
        let name = base_name(path);
        assert(path.skip(path.len() - name.len()) =~= name);
        if name.contains('/') {
            let k = name.index_of('/');
            assert(base_name(front)[k] == '/');
        }
    }
}

/// The extension is what stands behind the last dot of the last component. A
/// component without a dot has none, and neither has one whose only dot comes
/// first.
pub proof fn law_path_extension(path: Seq<char>, dot: int)
    requires
        0 <= dot < base_name(path).len(),
        base_name(path)[dot] == '.',
        forall|k: int| dot < k < base_name(path).len() ==> base_name(path)[k] != '.',
    ensures
        dot > 0 ==> path_extension(path) == Some(base_name(path).skip(dot + 1)),
        dot == 0 ==> path_extension(path) is None,
{
    let name = base_name(path);
    lemma_last_dot(name, name.len() as int, dot);
    assert(name.subrange(dot + 1, name.len() as int) =~= name.skip(dot + 1));
}

/// A path whose last component has no dot has no extension.
pub proof fn law_no_dot_no_extension(path: Seq<char>)
    requires
        !base_name(path).contains('.'),
    ensures
        path_extension(path) is None,
{
    let name = base_name(path);
    lemma_no_dot(name, name.len() as int);
}

proof fn lemma_last_dot(s: Seq<char>, i: int, dot: int)
    requires
        0 <= dot < i <= s.len(),
        s[dot] == '.',
        forall|k: int| dot < k < i ==> s[k] != '.',
    ensures
        last_dot(s, i) == Some(dot),
    decreases i,
{
    if dot < i - 1 {
        lemma_last_dot(s, i - 1, dot);
    }
}

proof fn lemma_no_dot(s: Seq<char>, i: int)
    requires
        0 <= i <= s.len(),
        !s.contains('.'),
    ensures
        last_dot(s, i) is None,
    decreases i,
{
    if i > 0 {
        assert(s.contains(s[i - 1]));
        lemma_no_dot(s, i - 1);
    }
}

/// ASCII letters are put in lower case, and nothing else changes.
pub proof fn law_ascii_lower(c: char)
    requires
        c as u32 <= 127,
    ensures
        'A' <= c <= 'Z' ==> 'a' <= ascii_lower(c) <= 'z' && ascii_lower(c) as u32 - 'a' as u32 == c
            as u32 - 'A' as u32,
        !('A' <= c <= 'Z') ==> ascii_lower(c) == c,
{
}

} // verus!
