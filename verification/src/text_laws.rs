//! What joining, trimming, searching, replacing and writing numbers come to.

use vstd::prelude::*;
use vstd::string::*;

use crate::duration::{digit_value, digits_value};
use crate::text::{
    decimal, digit, found, joined, lemma_found, occurs_at, optional_text, replaced, text_before, texts,
    trim_end, trim_start, trimmed, whitespace,
};

verus! {

// ---------------------------------------------------------------------------
// Occurrence
// ---------------------------------------------------------------------------

/// Whether `needle` stands somewhere in `hay`.
pub open spec fn contains_text(hay: Seq<char>, needle: Seq<char>) -> bool {
    exists|k: int| #[trigger] occurs_at(hay, needle, k)
}

/// A text that stands in a part stands in what is made around the part.
pub proof fn lemma_contains_around(a: Seq<char>, b: Seq<char>, c: Seq<char>, needle: Seq<char>)
    requires
        contains_text(b, needle),
    ensures
        contains_text(a + b + c, needle),
{
    let k = choose|k: int| #[trigger] occurs_at(b, needle, k);
    let whole = a + b + c;
    let at = a.len() + k;
    assert(whole.subrange(at, at + needle.len()) =~= b.subrange(k, k + needle.len()));
    assert(occurs_at(whole, needle, at));
}

/// What stands in a text that stands in another stands in that one too.
pub proof fn lemma_contains_transitive(a: Seq<char>, b: Seq<char>, c: Seq<char>)
    requires
        contains_text(a, b),
        contains_text(b, c),
    ensures
        contains_text(a, c),
{
    let k = choose|k: int| #[trigger] occurs_at(a, b, k);
    let j = choose|j: int| #[trigger] occurs_at(b, c, j);
    assert(a.subrange(k + j, k + j + c.len()) =~= b.subrange(j, j + c.len()));
    assert(occurs_at(a, c, k + j));
}

/// A text stands in itself.
pub proof fn lemma_contains_self(a: Seq<char>)
    ensures
        contains_text(a, a),
{
    assert(a.subrange(0, a.len() as int) =~= a);
    assert(occurs_at(a, a, 0));
}

// ---------------------------------------------------------------------------
// Joining
// ---------------------------------------------------------------------------

/// The number of characters of the first `n` parts.
pub open spec fn total_len(parts: Seq<Seq<char>>, n: int) -> int
    decreases n,
{
    if n <= 0 || n > parts.len() {
        0
    } else {
        total_len(parts, n - 1) + parts[n - 1].len()
    }
}

/// The place at which part `i` begins where parts are `gap` characters apart.
pub open spec fn part_start(parts: Seq<Seq<char>>, gap: int, i: int) -> int {
    total_len(parts, i) + gap * i
}

/// Whether `t` holds `parts` one after another, all of them and each whole, with
/// `sep` and nothing else between neighbours.
pub open spec fn laid_out(t: Seq<char>, parts: Seq<Seq<char>>, sep: Seq<char>) -> bool {
    &&& t.len() == total_len(parts, parts.len() as int) + sep.len() * (if parts.len() > 0 {
        parts.len() - 1
    } else {
        0
    })
    &&& forall|i: int|
        0 <= i < parts.len() ==> occurs_at(
            t,
            #[trigger] parts[i],
            part_start(parts, sep.len() as int, i),
        )
    &&& forall|i: int|
        1 <= i < parts.len() ==> occurs_at(
            t,
            sep,
            #[trigger] part_start(parts, sep.len() as int, i) - sep.len(),
        )
}

proof fn lemma_total_len_prefix(parts: Seq<Seq<char>>, n: int)
    requires
        0 <= n < parts.len(),
    ensures
        total_len(parts.drop_last(), n) == total_len(parts, n),
        total_len(parts, n) >= 0,
    decreases n,
{
    if n > 0 {
        lemma_total_len_prefix(parts, n - 1);
    }
}

proof fn lemma_part_ends(parts: Seq<Seq<char>>, n: int, i: int)
    requires
        0 <= i < n <= parts.len(),
    ensures
        0 <= total_len(parts, i) <= total_len(parts, n),
        total_len(parts, i) + parts[i].len() <= total_len(parts, n),
    decreases n,
{
    if i < n - 1 {
        lemma_part_ends(parts, n - 1, i);
    } else {
        lemma_total_len_nonnegative(parts, i);
    }
}

proof fn lemma_total_len_nonnegative(parts: Seq<Seq<char>>, n: int)
    ensures
        total_len(parts, n) >= 0,
    decreases n,
{
    if 0 < n <= parts.len() {
        lemma_total_len_nonnegative(parts, n - 1);
    }
}

/// What stands in a text stands there still when something is put behind it.
proof fn lemma_occurs_in_front(u: Seq<char>, v: Seq<char>, x: Seq<char>, k: int)
    requires
        occurs_at(u, x, k),
    ensures
        occurs_at(u + v, x, k),
{
    assert((u + v).subrange(k, k + x.len()) =~= u.subrange(k, k + x.len()));
}

/// What is put behind a text stands there.
proof fn lemma_occurs_behind(u: Seq<char>, x: Seq<char>)
    ensures
        occurs_at(u + x, x, u.len() as int),
{
    assert((u + x).subrange(u.len() as int, (u + x).len() as int) =~= x);
}

/// Where the parts begin does not depend on the last one.
proof fn lemma_start_in_front(parts: Seq<Seq<char>>, gap: int, i: int)
    requires
        0 <= i < parts.len(),
    ensures
        part_start(parts.drop_last(), gap, i) == part_start(parts, gap, i),
{
    lemma_total_len_prefix(parts, i);
}

/// A layout goes on with the separator and the next part.
proof fn lemma_layout_goes_on(u: Seq<char>, parts: Seq<Seq<char>>, sep: Seq<char>)
    requires
        parts.len() >= 2,
        laid_out(u, parts.drop_last(), sep),
    ensures
        laid_out(u + sep + parts.last(), parts, sep),
{
    let n = parts.len() as int;
    let g = sep.len() as int;
    let front = parts.drop_last();
    let t = u + sep + parts.last();
    lemma_total_len_prefix(parts, n - 1);
    assert(g * (n - 1) == g * (n - 2) + g) by (nonlinear_arith);
    assert(u.len() + g == part_start(parts, g, n - 1));
    assert forall|i: int| 0 <= i < n implies occurs_at(
        t,
        #[trigger] parts[i],
        part_start(parts, g, i),
    ) by {
        if i < n - 1 {
            assert(front[i] == parts[i]);
            lemma_start_in_front(parts, g, i);
            lemma_occurs_in_front(u, sep, parts[i], part_start(parts, g, i));
            lemma_occurs_in_front(u + sep, parts.last(), parts[i], part_start(parts, g, i));
        } else {
            lemma_occurs_behind(u + sep, parts.last());
        }
    }
    assert forall|i: int| 1 <= i < n implies occurs_at(
        t,
        sep,
        #[trigger] part_start(parts, g, i) - g,
    ) by {
        if i < n - 1 {
            lemma_start_in_front(parts, g, i);
            assert(occurs_at(u, sep, part_start(front, g, i) - g));
            lemma_occurs_in_front(u, sep, sep, part_start(parts, g, i) - g);
            lemma_occurs_in_front(u + sep, parts.last(), sep, part_start(parts, g, i) - g);
        } else {
            lemma_occurs_behind(u, sep);
            lemma_occurs_in_front(u + sep, parts.last(), sep, u.len() as int);
        }
    }
}

/// Joining lays out the parts with the separator: nothing is lost, added or
/// moved.
pub proof fn law_joined_is_laid_out(parts: Seq<Seq<char>>, sep: Seq<char>)
    ensures
        laid_out(joined(parts, sep), parts, sep),
    decreases parts.len(),
{
    if parts.len() == 1 {
        let g = sep.len() as int;
        reveal_with_fuel(total_len, 3);
        assert(g * 0 == 0) by (nonlinear_arith);
        assert(parts[0].subrange(0, parts[0].len() as int) =~= parts[0]);
    } else if parts.len() > 1 {
        law_joined_is_laid_out(parts.drop_last(), sep);
        lemma_layout_goes_on(joined(parts.drop_last(), sep), parts, sep);
    } else {
        assert(sep.len() * 0 == 0) by (nonlinear_arith);
    }
}

/// There is one text that lays out given parts with a given separator.
pub proof fn law_layout_is_unique(
    t: Seq<char>,
    u: Seq<char>,
    parts: Seq<Seq<char>>,
    sep: Seq<char>,
)
    requires
        laid_out(t, parts, sep),
        laid_out(u, parts, sep),
    ensures
        t == u,
{
    let g = sep.len() as int;
    assert forall|k: int| 0 <= k < t.len() implies t[k] == u[k] by {
        lemma_layout_position(t, u, parts, sep, parts.len() as int, k);
    }
    assert(t =~= u);
}

/// Up to the end of part `n - 1` two layouts agree.
proof fn lemma_layout_position(
    t: Seq<char>,
    u: Seq<char>,
    parts: Seq<Seq<char>>,
    sep: Seq<char>,
    n: int,
    k: int,
)
    requires
        laid_out(t, parts, sep),
        laid_out(u, parts, sep),
        0 <= n <= parts.len(),
        0 <= k < (if n == 0 {
            0
        } else {
            part_start(parts, sep.len() as int, n - 1) + parts[n - 1].len()
        }),
    ensures
        k < t.len(),
        k < u.len(),
        t[k] == u[k],
    decreases n,
{
    let g = sep.len() as int;
    let start = part_start(parts, g, n - 1);
    assert(occurs_at(t, parts[n - 1], start));
    assert(occurs_at(u, parts[n - 1], start));
    if k >= start {
        assert(t.subrange(start, start + parts[n - 1].len())[k - start] == t[k]);
        assert(u.subrange(start, start + parts[n - 1].len())[k - start] == u[k]);
    } else if n > 1 {
        assert(g * (n - 1) == g * (n - 2) + g) by (nonlinear_arith);
        assert(start - g == part_start(parts, g, n - 2) + parts[n - 2].len());
        assert(occurs_at(t, sep, part_start(parts, g, n - 1) - g));
        assert(occurs_at(u, sep, part_start(parts, g, n - 1) - g));
        if k >= start - g {
            assert(t.subrange(start - g, start)[k - (start - g)] == t[k]);
            assert(u.subrange(start - g, start)[k - (start - g)] == u[k]);
        } else {
            lemma_layout_position(t, u, parts, sep, n - 1, k);
        }
    } else {
        assert(g * 0 == 0);
    }
}

/// Every part stands in what is joined, and an earlier part stands before a later
/// one.
pub proof fn law_joined_holds_every_part(parts: Seq<Seq<char>>, sep: Seq<char>, i: int, j: int)
    requires
        0 <= i < parts.len(),
        0 <= j < parts.len(),
    ensures
        contains_text(joined(parts, sep), parts[i]),
        i < j ==> exists|p: int, q: int|
            #![trigger occurs_at(joined(parts, sep), parts[i], p), occurs_at(joined(parts, sep), parts[j], q)]
            occurs_at(joined(parts, sep), parts[i], p) && occurs_at(joined(parts, sep), parts[j], q)
                && p + parts[i].len() <= q,
{
    law_joined_is_laid_out(parts, sep);
    let g = sep.len() as int;
    let p = part_start(parts, g, i);
    let q = part_start(parts, g, j);
    assert(occurs_at(joined(parts, sep), parts[i], p));
    assert(occurs_at(joined(parts, sep), parts[j], q));
    if i < j {
        lemma_part_ends(parts, j, i);
        assert(g * i <= g * j) by (nonlinear_arith)
            requires
                i < j,
                g >= 0,
        ;
        assert(p + parts[i].len() <= q);
    }
}

/// A list of texts holds the text of each of its strings, in order.
pub proof fn law_texts_are_element_wise(v: Seq<String>, i: int)
    requires
        0 <= i < v.len(),
    ensures
        texts(v).len() == v.len(),
        texts(v)[i] == v[i]@,
        optional_text(Some(v[i])) == Some(v[i]@),
        optional_text(None) == None::<Seq<char>>,
{
}

// ---------------------------------------------------------------------------
// White space
// ---------------------------------------------------------------------------

/// White space is the line and page breaks, the space, and the spaces of other
/// widths and scripts.
pub proof fn law_whitespace(c: char)
    ensures
        whitespace(c) <==> (c == '\u{9}' || c == '\u{a}' || c == '\u{b}' || c == '\u{c}' || c
            == '\u{d}' || c == ' ' || c == '\u{85}' || c == '\u{a0}' || c == '\u{1680}' || '\u{2000}'
            <= c <= '\u{200a}' || c == '\u{2028}' || c == '\u{2029}' || c == '\u{202f}' || c
            == '\u{205f}' || c == '\u{3000}'),
{
}

/// Trimming cuts white space from both ends and nothing else, and leaves none
/// there.
pub proof fn law_trimmed(s: Seq<char>)
    ensures
        exists|a: int, b: int|
            #![trigger s.subrange(a, b)]
            0 <= a <= b <= s.len() && trimmed(s) == s.subrange(a, b) && (forall|k: int|
                0 <= k < s.len() && (k < a || b <= k) ==> whitespace(#[trigger] s[k])),
        trimmed(s).len() > 0 ==> !whitespace(trimmed(s)[0]) && !whitespace(trimmed(s).last()),
{
    let t = trim_start(s);
    lemma_trim_start(s);
    lemma_trim_end(t);
    let a = s.len() - t.len();
    let b = a + trim_end(t).len();
    assert(trimmed(s) =~= s.subrange(a, b));
    assert forall|k: int| 0 <= k < s.len() && (k < a || b <= k) implies whitespace(
        #[trigger] s[k],
    ) by {
        if b <= k {
            assert(t[k - a] == s[k]);
        }
    }
    if trimmed(s).len() > 0 {
        assert(trimmed(s)[0] == t[0]);
    }
}

proof fn lemma_trim_start(s: Seq<char>)
    ensures
        trim_start(s).len() <= s.len(),
        trim_start(s) == s.skip(s.len() - trim_start(s).len()),
        forall|k: int| 0 <= k < s.len() - trim_start(s).len() ==> whitespace(#[trigger] s[k]),
        trim_start(s).len() > 0 ==> !whitespace(trim_start(s)[0]),
    decreases s.len(),
{
    if s.len() > 0 && whitespace(s[0]) {
        let rest = s.drop_first();
        lemma_trim_start(rest);
        let t = trim_start(s);
        assert(rest.skip(rest.len() - t.len()) =~= s.skip(s.len() - t.len()));
        assert forall|k: int| 0 <= k < s.len() - t.len() implies whitespace(#[trigger] s[k]) by {
            if k > 0 {
                assert(rest[k - 1] == s[k]);
            }
        }
    } else {
        assert(s.skip(0) =~= s);
    }
}

/// Cutting trailing white space leaves a prefix behind which only white space
/// stood, and which ends in none.
pub proof fn lemma_trim_end(s: Seq<char>)
    ensures
        trim_end(s).len() <= s.len(),
        trim_end(s) == s.take(trim_end(s).len() as int),
        forall|k: int| trim_end(s).len() <= k < s.len() ==> whitespace(#[trigger] s[k]),
        trim_end(s).len() > 0 ==> !whitespace(trim_end(s).last()),
    decreases s.len(),
{
    if s.len() > 0 && whitespace(s.last()) {
        let rest = s.drop_last();
        lemma_trim_end(rest);
        let t = trim_end(s);
        assert(rest.take(t.len() as int) =~= s.take(t.len() as int));
        assert forall|k: int| t.len() <= k < s.len() implies whitespace(#[trigger] s[k]) by {
            if k < s.len() - 1 {
                assert(rest[k] == s[k]);
            }
        }
    } else {
        assert(s.take(s.len() as int) =~= s);
    }
}

// ---------------------------------------------------------------------------
// Replacing
// ---------------------------------------------------------------------------

/// Up to the first occurrence of a pattern the text stays, the pattern is
/// replaced, and what follows is dealt with in the same way.
pub proof fn law_first_occurrence_is_replaced(
    s: Seq<char>,
    pat: Seq<char>,
    with: Seq<char>,
    i: int,
    k: int,
)
    requires
        0 <= i <= k,
        pat.len() > 0,
        occurs_at(s, pat, k),
        forall|j: int| i <= j < k ==> !occurs_at(s, pat, j),
    ensures
        replaced(s, pat, with, i) == s.subrange(i, k) + with + replaced(s, pat, with, k + pat.len()),
    decreases k - i,
{
    let rest = replaced(s, pat, with, k + pat.len());
    if i == k {
        assert(s.subrange(i, k) + with =~= with);
    } else {
        law_first_occurrence_is_replaced(s, pat, with, i + 1, k);
        assert(seq![s[i]] + (s.subrange(i + 1, k) + with + rest) =~= s.subrange(i, k) + with
            + rest);
    }
}

/// Where a pattern does not stand, the text stays.
pub proof fn law_without_occurrence_nothing_is_replaced(
    s: Seq<char>,
    pat: Seq<char>,
    with: Seq<char>,
    i: int,
)
    requires
        0 <= i <= s.len(),
        forall|j: int| i <= j ==> !occurs_at(s, pat, j),
    ensures
        replaced(s, pat, with, i) == s.skip(i),
    decreases s.len() - i,
{
    if i < s.len() {
        law_without_occurrence_nothing_is_replaced(s, pat, with, i + 1);
        assert(seq![s[i]] + s.skip(i + 1) =~= s.skip(i));
    } else {
        assert(s.skip(i) =~= Seq::empty());
    }
}

/// The first occurrence is found, if and only if there is one.
pub proof fn law_found_is_first(s: Seq<char>, pat: Seq<char>, from: int, k: int)
    requires
        0 <= from,
    ensures
        found(s, pat, from) == Some(k) <==> from <= k && occurs_at(s, pat, k) && (forall|j: int|
            from <= j < k ==> !occurs_at(s, pat, j)),
{
    lemma_found(s, pat, from);
    if from <= k && occurs_at(s, pat, k) && (forall|j: int|
        from <= j < k ==> !occurs_at(s, pat, j)) {
        match found(s, pat, from) {
            Some(m) => {
                if m > k {
                    assert(!occurs_at(s, pat, k));
                }
            },
            None => {
                assert(!occurs_at(s, pat, k));
            },
        }
    }
}

// ---------------------------------------------------------------------------
// Numbers
// ---------------------------------------------------------------------------

/// Read back digit by digit, the decimal of a number gives the number, and only
/// the decimal of zero begins with a zero.
pub proof fn law_decimal_reads_back(n: int)
    requires
        0 <= n,
    ensures
        digits_value(decimal(n)) == Some(n),
        decimal(n).len() > 0,
        n > 0 ==> decimal(n)[0] != '0',
    decreases n,
{
    if n < 10 {
        lemma_digit_reads_back(n);
        reveal_with_fuel(digits_value, 2);
        assert(seq![digit(n)].drop_last() =~= Seq::empty());
    } else {
        law_decimal_reads_back(n / 10);
        lemma_digit_reads_back(n % 10);
        assert(decimal(n).drop_last() =~= decimal(n / 10));
        assert(decimal(n)[0] == decimal(n / 10)[0]);
    }
}

/// A digit has the value it was made of.
pub proof fn lemma_digit_reads_back(d: int)
    requires
        0 <= d < 10,
    ensures
        digit_value(digit(d)) == Some(d),
        d > 0 ==> digit(d) != '0',
{
}

// ---------------------------------------------------------------------------
// Order
// ---------------------------------------------------------------------------

/// Where two texts differ first, the smaller character decides, and a text stands
/// before what it begins.
pub proof fn law_first_difference_decides(a: Seq<char>, b: Seq<char>, k: int)
    requires
        0 <= k <= a.len(),
        k <= b.len(),
        forall|i: int| 0 <= i < k ==> a[i] == b[i],
    ensures
        k < a.len() && k < b.len() && a[k] != b[k] ==> (text_before(a, b) <==> (a[k] as u32) < (b[k]
            as u32)),
        k == a.len() ==> (text_before(a, b) <==> a.len() < b.len()),
        k == b.len() ==> !text_before(a, b),
    decreases k,
{
    if k > 0 {
        let x = a.drop_first();
        let y = b.drop_first();
        assert forall|i: int| 0 <= i < k - 1 implies x[i] == y[i] by {
            assert(a[i + 1] == b[i + 1]);
        }
        law_first_difference_decides(x, y, k - 1);
        assert(a[0] == b[0]);
    }
}

} // verus!
