//! Truncating snippets at a natural boundary: paragraph, sentence, word.

use vstd::prelude::*;
use vstd::string::*;

use crate::text_laws::lemma_trim_end;
use crate::text::{
    chars_of, is_whitespace, lemma_trim_end_prefix, trim_end, trimmed_end, whitespace,
};

verus! {

/// Whether `c` can end a sentence.
pub open spec fn terminator(c: char) -> bool {
    c == '.' || c == '!' || c == '?'
}

/// Whether `c` closes a quotation or a bracket.
pub open spec fn closer(c: char) -> bool {
    c == '"' || c == '\'' || c == ')' || c == ']' || c == '）'
}

/// The position behind the terminator at `i` and behind one closer that follows
/// it before `hi`.
pub open spec fn past_terminator(s: Seq<char>, i: int, hi: int) -> int {
    if i + 1 < hi && closer(s[i + 1]) {
        i + 2
    } else {
        i + 1
    }
}

/// Whether the sentence of the terminator at `i` is complete: white space or the
/// end of the text follows.
pub open spec fn ends_sentence(s: Seq<char>, i: int, hi: int) -> bool {
    let end = past_terminator(s, i, hi);
    terminator(s[i]) && (end >= s.len() || whitespace(s[end]))
}

/// The end of the last complete sentence whose terminator stands in `lo..i`.
pub open spec fn sentence_cut(s: Seq<char>, lo: int, i: int, hi: int) -> Option<int>
    decreases i,
{
    if i <= lo || i <= 0 {
        None
    } else if ends_sentence(s, i - 1, hi) {
        Some(past_terminator(s, i - 1, hi))
    } else {
        sentence_cut(s, lo, i - 1, hi)
    }
}

/// The last position in `lo..i` at which a paragraph break stands.
pub open spec fn paragraph_cut(s: Seq<char>, lo: int, i: int) -> Option<int>
    decreases i,
{
    if i <= lo || i <= 0 {
        None
    } else if s[i - 1] == '\n' && i < s.len() && s[i] == '\n' {
        Some(i - 1)
    } else {
        paragraph_cut(s, lo, i - 1)
    }
}

/// The last position before `i` at which white space stands.
pub open spec fn word_cut(s: Seq<char>, i: int) -> Option<int>
    decreases i,
{
    if i <= 0 {
        None
    } else if whitespace(s[i - 1]) {
        Some(i - 1)
    } else {
        word_cut(s, i - 1)
    }
}

/// The largest length a cut may have: a fifth over the soft cap.
pub open spec fn upper_limit(s: Seq<char>, cap: int) -> int {
    if cap + cap / 5 <= s.len() {
        cap + cap / 5
    } else {
        s.len() as int
    }
}

/// The position at which a text that is longer than `cap` is cut: the last
/// paragraph break between half the cap and a fifth over it, otherwise the end
/// of the last sentence there, otherwise the last white space up to the cap,
/// otherwise the cap.
pub open spec fn cut_position(s: Seq<char>, cap: int) -> int {
    let hi = upper_limit(s, cap);
    let lo = cap / 2;
    match paragraph_cut(s, lo, hi - 1) {
        Some(p) if p > 0 => p,
        _ => match sentence_cut(s, lo, hi, hi) {
            Some(e) => e,
            None => match word_cut(s, cap + 1) {
                Some(w) if w > 0 => w,
                _ => cap,
            },
        },
    }
}

/// `s` without its trailing white space, unless nothing else is in it.
pub open spec fn safely_trimmed(s: Seq<char>) -> Seq<char> {
    if trim_end(s).len() == 0 {
        s
    } else {
        trim_end(s)
    }
}

/// `s` cut to about `cap` characters.
pub open spec fn snippet(s: Seq<char>, cap: int) -> Seq<char> {
    if s.len() <= cap {
        s
    } else {
        safely_trimmed(s.take(cut_position(s, cap)))
    }
}

fn is_terminator(c: char) -> (r: bool)
    ensures
        r == terminator(c),
{
    c == '.' || c == '!' || c == '?'
}

fn is_closer(c: char) -> (r: bool)
    ensures
        r == closer(c),
{
    c == '"' || c == '\'' || c == ')' || c == ']' || c == '）'
}

/// The end of the last complete sentence whose terminator stands in
/// `chars[lo..hi]`. What follows `hi` decides whether a sentence that reaches it
/// is complete.
fn last_sentence_end(chars: &[char], lo: usize, hi: usize) -> (r: Option<usize>)
    requires
        lo <= hi <= chars@.len(),
    ensures
        r is Some == sentence_cut(chars@, lo as int, hi as int, hi as int) is Some,
        r matches Some(e) ==> sentence_cut(chars@, lo as int, hi as int, hi as int) == Some(
            e as int,
        ) && lo < e <= hi,
{
    let n: usize = chars.len();
    let mut i: usize = hi;
    while i > lo
        invariant
            lo <= i <= hi <= n,
            n == chars@.len(),
            sentence_cut(chars@, lo as int, hi as int, hi as int) == sentence_cut(
                chars@,
                lo as int,
                i as int,
                hi as int,
            ),
        decreases i,
    {
        if is_terminator(chars[i - 1]) {
            let end: usize = if i < hi && is_closer(chars[i]) {
                i + 1
            } else {
                i
            };
            if end >= n || is_whitespace(chars[end]) {
                return Some(end);
            }
        }
        i -= 1;
    }
    None
}

/// The last position in `chars[lo..hi]` at which a paragraph break stands.
fn last_paragraph_break(chars: &[char], lo: usize, hi: usize) -> (r: Option<usize>)
    requires
        lo <= hi <= chars@.len(),
    ensures
        r is Some == paragraph_cut(chars@, lo as int, hi - 1) is Some,
        r matches Some(p) ==> paragraph_cut(chars@, lo as int, hi - 1) == Some(p as int) && lo <= p
            && p + 2 <= hi,
{
    if hi == 0 {
        return None;
    }
    let mut i: usize = hi - 1;
    while i > lo
        invariant
            i < hi <= chars@.len(),
            lo <= hi,
            paragraph_cut(chars@, lo as int, hi - 1) == paragraph_cut(
                chars@,
                lo as int,
                i as int,
            ),
        decreases i,
    {
        if chars[i - 1] == '\n' && chars[i] == '\n' {
            return Some(i - 1);
        }
        i -= 1;
    }
    None
}

/// The last position in `chars[..to]` at which white space stands.
fn last_whitespace(chars: &[char], to: usize) -> (r: Option<usize>)
    requires
        to <= chars@.len(),
    ensures
        r is Some == word_cut(chars@, to as int) is Some,
        r matches Some(w) ==> word_cut(chars@, to as int) == Some(w as int) && w < to,
{
    let mut i: usize = to;
    while i > 0
        invariant
            i <= to <= chars@.len(),
            word_cut(chars@, to as int) == word_cut(chars@, i as int),
        decreases i,
    {
        if is_whitespace(chars[i - 1]) {
            return Some(i - 1);
        }
        i -= 1;
    }
    None
}

/// `text[..cut]` without its trailing white space, unless nothing else is in it.
fn safe_trim_end<'a>(text: &'a str, chars: &[char], cut: usize) -> (r: &'a str)
    requires
        chars@ == text@,
        cut <= chars@.len(),
    ensures
        r@ == safely_trimmed(text@.take(cut as int)),
{
    let end: usize = trimmed_end(chars, 0, cut);
    proof {
        assert(text@.subrange(0, cut as int) =~= text@.take(cut as int));
    }
    if end == 0 {
        text.substring_char(0, cut)
    } else {
        text.substring_char(0, end)
    }
}

/// Truncates `text` to about `soft_cap` characters at a natural boundary, and
/// says whether it did.
pub fn truncate_snippet(text: &str, soft_cap: usize) -> (r: (&str, bool))
    ensures
        r.0@ == snippet(text@, soft_cap as int),
        r.1 == (text@.len() > soft_cap),
{
    let chars = chars_of(text);
    let n: usize = chars.len();
    if n <= soft_cap {
        return (text, false);
    }
    let hi: usize = if n - soft_cap >= soft_cap / 5 {
        soft_cap + soft_cap / 5
    } else {
        n
    };
    let lo: usize = soft_cap / 2;
    if let Some(p) = last_paragraph_break(chars.as_slice(), lo, hi) {
        if p > 0 {
            return (safe_trim_end(text, chars.as_slice(), p), true);
        }
    }
    if let Some(e) = last_sentence_end(chars.as_slice(), lo, hi) {
        return (safe_trim_end(text, chars.as_slice(), e), true);
    }
    if let Some(w) = last_whitespace(chars.as_slice(), soft_cap + 1) {
        if w > 0 {
            return (safe_trim_end(text, chars.as_slice(), w), true);
        }
    }
    (safe_trim_end(text, chars.as_slice(), soft_cap), true)
}

// ---------------------------------------------------------------------------
// Laws
// ---------------------------------------------------------------------------

proof fn lemma_paragraph_cut(s: Seq<char>, lo: int, i: int)
    requires
        0 <= lo,
        i < s.len(),
    ensures
        paragraph_cut(s, lo, i) matches Some(p) ==> lo <= p && p + 1 <= i && s[p] == '\n'
            && s[p + 1] == '\n',
    decreases i,
{
    if i > lo && i > 0 {
        lemma_paragraph_cut(s, lo, i - 1);
    }
}

proof fn lemma_sentence_cut(s: Seq<char>, lo: int, i: int, hi: int)
    requires
        0 <= lo,
        i <= hi <= s.len(),
    ensures
        sentence_cut(s, lo, i, hi) matches Some(e) ==> lo < e <= hi,
    decreases i,
{
    if i > lo && i > 0 {
        lemma_sentence_cut(s, lo, i - 1, hi);
    }
}

proof fn lemma_word_cut(s: Seq<char>, i: int)
    ensures
        word_cut(s, i) matches Some(w) ==> 0 <= w < i && whitespace(s[w]),
    decreases i,
{
    if i > 0 {
        lemma_word_cut(s, i - 1);
    }
}

/// A cut lies within the text and at most a fifth over the cap, and leaves at
/// least one character unless the cap is zero.
pub proof fn law_cut_in_bounds(s: Seq<char>, cap: int)
    requires
        0 <= cap < s.len(),
    ensures
        0 <= cut_position(s, cap) <= s.len(),
        cut_position(s, cap) <= cap + cap / 5,
        cap >= 1 ==> cut_position(s, cap) >= 1,
{
    let hi = upper_limit(s, cap);
    lemma_paragraph_cut(s, cap / 2, hi - 1);
    lemma_sentence_cut(s, cap / 2, hi, hi);
    lemma_word_cut(s, cap + 1);
}

/// A snippet is a prefix of its text.
pub proof fn law_snippet_is_prefix(s: Seq<char>, cap: int)
    requires
        0 <= cap,
    ensures
        snippet(s, cap).is_prefix_of(s),
{
    if s.len() > cap {
        law_cut_in_bounds(s, cap);
        let front = s.take(cut_position(s, cap));
        lemma_trim_end_prefix(front);
        assert(snippet(s, cap) =~= s.take(snippet(s, cap).len() as int));
    }
}

/// A snippet of a text that is not empty is not empty, for any cap from 1 on.
pub proof fn law_snippet_never_empty(s: Seq<char>, cap: int)
    requires
        s.len() > 0,
        cap >= 1,
    ensures
        snippet(s, cap).len() > 0,
{
    if s.len() > cap {
        law_cut_in_bounds(s, cap);
    }
}

/// A snippet has at most a fifth more characters than the cap.
pub proof fn law_snippet_bounded(s: Seq<char>, cap: int)
    requires
        0 <= cap,
    ensures
        snippet(s, cap).len() <= cap + cap / 5,
{
    if s.len() > cap {
        law_cut_in_bounds(s, cap);
        lemma_trim_end_prefix(s.take(cut_position(s, cap)));
    }
}

/// A text that fits the cap is its own snippet.
pub proof fn law_snippet_of_short_text(s: Seq<char>, cap: int)
    requires
        s.len() <= cap,
    ensures
        snippet(s, cap) == s,
{
}

/// Without a paragraph break or the end of a sentence near the cap, a snippet
/// does not go over the cap.
pub proof fn law_word_cut_does_not_overshoot(s: Seq<char>, cap: int)
    requires
        0 <= cap < s.len(),
        paragraph_cut(s, cap / 2, upper_limit(s, cap) - 1) is None,
        sentence_cut(s, cap / 2, upper_limit(s, cap), upper_limit(s, cap)) is None,
    ensures
        snippet(s, cap).len() <= cap,
{
    lemma_word_cut(s, cap + 1);
    law_cut_in_bounds(s, cap);
    lemma_trim_end_prefix(s.take(cut_position(s, cap)));
}

/// Whether a blank line begins at `i`.
pub open spec fn breaks_paragraph(s: Seq<char>, i: int) -> bool {
    0 <= i && i + 1 < s.len() && s[i] == '\n' && s[i + 1] == '\n'
}

/// Whether a sentence whose terminator stands at `i` ends at `end`: behind the
/// terminator and one closing quote or bracket that stands before `hi`, with white
/// space or the end of the text behind.
pub open spec fn ends_sentence_at(s: Seq<char>, i: int, hi: int, end: int) -> bool {
    &&& 0 <= i < s.len()
    &&& s[i] == '.' || s[i] == '!' || s[i] == '?'
    &&& end == i + (if i + 1 < hi && (s[i + 1] == '"' || s[i + 1] == '\'' || s[i + 1] == ')' || s[i
        + 1] == ']' || s[i + 1] == '）') {
        2int
    } else {
        1
    })
    &&& end >= s.len() || whitespace(s[end])
}

/// A text that is too long is cut at the last blank line between half the cap and a
/// fifth over it.
pub proof fn law_paragraph_break_comes_first(s: Seq<char>, cap: int, k: int)
    requires
        1 <= cap < s.len(),
        0 < k,
        cap / 2 <= k,
        k + 2 <= cap + cap / 5,
        breaks_paragraph(s, k),
        forall|j: int|
            k < j && j + 2 <= cap + cap / 5 ==> !#[trigger] breaks_paragraph(s, j),
    ensures
        cut_position(s, cap) == k,
{
    let hi = upper_limit(s, cap);
    lemma_paragraph_cut_is_last(s, cap / 2, hi - 1, k);
}

proof fn lemma_paragraph_cut_is_last(s: Seq<char>, lo: int, i: int, k: int)
    requires
        0 <= lo <= k < i < s.len(),
        breaks_paragraph(s, k),
        forall|j: int| k < j < i ==> !#[trigger] breaks_paragraph(s, j),
    ensures
        paragraph_cut(s, lo, i) == Some(k),
    decreases i,
{
    if k < i - 1 {
        assert(!breaks_paragraph(s, i - 1));
        lemma_paragraph_cut_is_last(s, lo, i - 1, k);
    }
}

/// Where no blank line stands there, it is cut behind the last complete sentence
/// there.
pub proof fn law_sentence_comes_second(s: Seq<char>, cap: int, k: int, end: int)
    requires
        1 <= cap < s.len(),
        cap / 2 <= k < upper_limit(s, cap),
        forall|j: int|
            cap / 2 <= j && 0 < j && j + 2 <= cap + cap / 5 ==> !#[trigger] breaks_paragraph(s, j),
        ends_sentence_at(s, k, upper_limit(s, cap), end),
        forall|j: int, e: int|
            k < j < upper_limit(s, cap) ==> !#[trigger] ends_sentence_at(
                s,
                j,
                upper_limit(s, cap),
                e,
            ),
    ensures
        cut_position(s, cap) == end,
{
    let hi = upper_limit(s, cap);
    lemma_no_paragraph(s, cap);
    lemma_sentence_cut_is_last(s, cap / 2, hi, hi, k, end);
}

proof fn lemma_no_paragraph(s: Seq<char>, cap: int)
    requires
        1 <= cap < s.len(),
        forall|j: int|
            cap / 2 <= j && 0 < j && j + 2 <= cap + cap / 5 ==> !#[trigger] breaks_paragraph(s, j),
    ensures
        paragraph_cut(s, cap / 2, upper_limit(s, cap) - 1) matches Some(p) ==> p <= 0,
{
    let hi = upper_limit(s, cap);
    lemma_paragraph_cut(s, cap / 2, hi - 1);
    if let Some(p) = paragraph_cut(s, cap / 2, hi - 1) {
        assert(breaks_paragraph(s, p));
    }
}

proof fn lemma_sentence_cut_is_last(s: Seq<char>, lo: int, i: int, hi: int, k: int, end: int)
    requires
        0 <= lo <= k < i <= hi <= s.len(),
        ends_sentence_at(s, k, hi, end),
        forall|j: int, e: int| k < j < i ==> !#[trigger] ends_sentence_at(s, j, hi, e),
    ensures
        sentence_cut(s, lo, i, hi) == Some(end),
    decreases i,
{
    if k < i - 1 {
        assert(!ends_sentence_at(s, i - 1, hi, past_terminator(s, i - 1, hi)));
        lemma_sentence_cut_is_last(s, lo, i - 1, hi, k, end);
    }
}

proof fn lemma_no_sentence(s: Seq<char>, lo: int, i: int, hi: int)
    requires
        0 <= lo,
        i <= hi <= s.len(),
        forall|j: int, e: int| lo <= j < i ==> !#[trigger] ends_sentence_at(s, j, hi, e),
    ensures
        sentence_cut(s, lo, i, hi) is None,
    decreases i,
{
    if i > lo && i > 0 {
        assert(!ends_sentence_at(s, i - 1, hi, past_terminator(s, i - 1, hi)));
        lemma_no_sentence(s, lo, i - 1, hi);
    }
}

/// Where no sentence ends there either, it is cut at the last white space up to the
/// cap, and without any at the cap.
pub proof fn law_word_comes_third(s: Seq<char>, cap: int, k: int)
    requires
        1 <= cap < s.len(),
        forall|j: int|
            cap / 2 <= j && 0 < j && j + 2 <= cap + cap / 5 ==> !#[trigger] breaks_paragraph(s, j),
        forall|j: int, e: int|
            cap / 2 <= j < upper_limit(s, cap) ==> !#[trigger] ends_sentence_at(
                s,
                j,
                upper_limit(s, cap),
                e,
            ),
        0 <= k <= cap,
        forall|j: int| k < j <= cap ==> !whitespace(#[trigger] s[j]),
    ensures
        0 < k && whitespace(s[k]) ==> cut_position(s, cap) == k,
        k == 0 ==> cut_position(s, cap) == cap,
{
    let hi = upper_limit(s, cap);
    lemma_no_paragraph(s, cap);
    lemma_no_sentence(s, cap / 2, hi, hi);
    lemma_word_cut_is_last(s, cap + 1, k);
}

proof fn lemma_word_cut_is_last(s: Seq<char>, i: int, k: int)
    requires
        0 <= k < i <= s.len(),
        forall|j: int| k < j < i ==> !whitespace(#[trigger] s[j]),
    ensures
        whitespace(s[k]) ==> word_cut(s, i) == Some(k),
        k == 0 && !whitespace(s[k]) ==> word_cut(s, i) is None,
    decreases i,
{
    if k < i - 1 {
        assert(!whitespace(s[i - 1]));
        lemma_word_cut_is_last(s, i - 1, k);
    } else if k == 0 {
        assert(word_cut(s, 0) is None);
    }
}

/// A text that was cut is what stands ahead of the cut, without the white space at
/// its end, unless it is nothing but white space.
pub proof fn law_snippet_is_what_stands_ahead_of_the_cut(s: Seq<char>, cap: int)
    requires
        1 <= cap < s.len(),
    ensures
        ({
            let cut = s.take(cut_position(s, cap));
            let r = snippet(s, cap);
            &&& r == cut.take(r.len() as int)
            &&& forall|i: int| r.len() <= i < cut.len() ==> whitespace(#[trigger] cut[i])
            &&& r.len() < cut.len() ==> r.len() > 0
            &&& r.len() > 0 && !whitespace(r.last()) || r == cut
        }),
{
    let cut = s.take(cut_position(s, cap));
    lemma_trim_end(cut);
    assert(cut.take(cut.len() as int) =~= cut);
}

} // verus!
