//! Ranking by score, with a deterministic tie-break.

use vstd::prelude::*;
use vstd::string::*;

use crate::text::{
    lemma_text_before_asymmetric, lemma_text_before_total, lemma_text_before_transitive,
    text_before,
};

verus! {

/// Whether `bits` are those of a 64-bit float that is a number.
pub open spec fn is_number(bits: u64) -> bool {
    bits <= 0x7ff0_0000_0000_0000 || (0x8000_0000_0000_0000 <= bits <= 0xfff0_0000_0000_0000)
}

/// An integer that orders the bits of 64-bit floats as their values are ordered:
/// the magnitude, with the sign of the float. Both zeros are zero.
pub open spec fn float_order(bits: u64) -> int {
    if bits < 0x8000_0000_0000_0000 {
        bits as int
    } else {
        0x8000_0000_0000_0000 - bits
    }
}

/// Whether the float of bits `a` is greater than that of bits `b`.
pub fn float_greater(a: u64, b: u64) -> (r: bool)
    ensures
        r == (float_order(a) > float_order(b)),
{
    let a_negative: bool = a >= 0x8000_0000_0000_0000;
    let b_negative: bool = b >= 0x8000_0000_0000_0000;
    if a_negative {
        b_negative && a < b
    } else if b_negative {
        a > 0 || b > 0x8000_0000_0000_0000
    } else {
        a > b
    }
}

/// What an entry is ranked by.
#[verifier::ext_equal]
pub struct RankKey {
    pub score: int,
    pub store_id: Seq<char>,
    pub chunk_id: Seq<char>,
}

/// Whether `a` ranks before `b`: a higher score, then the store id, then the
/// chunk id.
pub open spec fn ranks_before(a: RankKey, b: RankKey) -> bool {
    ||| a.score > b.score
    ||| a.score == b.score && text_before(a.store_id, b.store_id)
    ||| a.score == b.score && a.store_id == b.store_id && text_before(a.chunk_id, b.chunk_id)
}

/// What can be ranked.
pub trait Ranked: Sized {
    /// What the entry is ranked by.
    spec fn rank_key(&self) -> RankKey;

    /// Whether `self` ranks before `other`.
    fn outranks(&self, other: &Self) -> (r: bool)
        ensures
            r == ranks_before(self.rank_key(), other.rank_key()),
    ;
}

/// The place of `x` in the ranked entries `s`: behind every entry that it does
/// not rank before, looking from place `i` towards the front.
pub open spec fn place<T: Ranked>(s: Seq<T>, x: T, i: int) -> int
    decreases i,
{
    if i > 0 && ranks_before(x.rank_key(), s[i - 1].rank_key()) {
        place(s, x, i - 1)
    } else {
        i
    }
}

/// `items` in the order of their ranks. Entries of equal rank keep their order.
pub open spec fn ranked<T: Ranked>(items: Seq<T>) -> Seq<T>
    decreases items.len(),
{
    if items.len() == 0 {
        Seq::empty()
    } else {
        let front = ranked(items.drop_last());
        front.insert(place(front, items.last(), front.len() as int), items.last())
    }
}

proof fn lemma_place_bounds<T: Ranked>(s: Seq<T>, x: T, i: int)
    requires
        0 <= i,
    ensures
        0 <= place(s, x, i) <= i,
        forall|k: int|
            place(s, x, i) <= k < i ==> ranks_before(x.rank_key(), (#[trigger] s[k]).rank_key()),
        place(s, x, i) > 0 ==> !ranks_before(x.rank_key(), s[place(s, x, i) - 1].rank_key()),
    decreases i,
{
    if i > 0 && ranks_before(x.rank_key(), s[i - 1].rank_key()) {
        lemma_place_bounds(s, x, i - 1);
    }
}

/// Puts `items` in the order of their ranks.
pub fn rank<T: Ranked>(items: Vec<T>) -> (r: Vec<T>)
    ensures
        r@ == ranked(items@),
{
    let mut out: Vec<T> = Vec::new();
    let ghost all = items@;
    for item in it: items
        invariant
            it.seq() == all,
            out@ == ranked(all.take(it.index() as int)),
    {
        let ghost before = out@;
        let ghost i = it.index();
        let n: usize = out.len();
        let mut at: usize = n;
        while at > 0 && item.outranks(&out[at - 1])
            invariant
                0 <= at <= n,
                n == out@.len(),
                out@ == before,
                place(before, item, n as int) == place(before, item, at as int),
            decreases at,
        {
            at -= 1;
        }
        out.insert(at, item);
        proof {
            assert(all.take(i + 1).drop_last() =~= all.take(i));
            assert(all.take(i + 1).last() == item);
        }
    }
    proof {
        assert(all.take(all.len() as int) =~= all);
    }
    out
}

// ---------------------------------------------------------------------------
// Laws
// ---------------------------------------------------------------------------

/// The order of ranks is a strict total order on keys.
pub proof fn law_rank_order_is_total(a: RankKey, b: RankKey)
    ensures
        ranks_before(a, b) ==> !ranks_before(b, a),
        a != b ==> ranks_before(a, b) || ranks_before(b, a),
{
    if a.store_id != b.store_id {
        lemma_text_before_total(a.store_id, b.store_id);
    } else if a.chunk_id != b.chunk_id {
        lemma_text_before_total(a.chunk_id, b.chunk_id);
    }
    if text_before(a.store_id, b.store_id) {
        lemma_text_before_asymmetric(a.store_id, b.store_id);
    }
    if text_before(b.store_id, a.store_id) {
        lemma_text_before_asymmetric(b.store_id, a.store_id);
    }
    if text_before(a.chunk_id, b.chunk_id) {
        lemma_text_before_asymmetric(a.chunk_id, b.chunk_id);
    }
}

proof fn lemma_rank_transitive(a: RankKey, b: RankKey, c: RankKey)
    requires
        !ranks_before(b, a),
        !ranks_before(c, b),
    ensures
        !ranks_before(c, a),
{
    if ranks_before(c, a) {
        law_rank_order_is_total(c, a);
        law_rank_order_is_total(a, b);
        law_rank_order_is_total(b, c);
        if a == b {
        } else if b == c {
        } else {
            assert(ranks_before(a, b));
            assert(ranks_before(b, c));
            if text_before(a.store_id, b.store_id) && text_before(b.store_id, c.store_id) {
                lemma_text_before_transitive(a.store_id, b.store_id, c.store_id);
            }
            if text_before(a.chunk_id, b.chunk_id) && text_before(b.chunk_id, c.chunk_id) {
                lemma_text_before_transitive(a.chunk_id, b.chunk_id, c.chunk_id);
            }
            assert(ranks_before(a, c));
        }
    }
}

/// Whether no entry ranks before one that stands ahead of it.
pub open spec fn in_order<T: Ranked>(s: Seq<T>) -> bool {
    forall|i: int, j: int|
        0 <= i < j < s.len() ==> !ranks_before((#[trigger] s[j]).rank_key(), (#[trigger] s[i]).rank_key())
}

/// Ranking puts the entries in order and loses and adds none.
pub proof fn law_ranked<T: Ranked>(items: Seq<T>)
    ensures
        in_order(ranked(items)),
        ranked(items).to_multiset() == items.to_multiset(),
        ranked(items).len() == items.len(),
    decreases items.len(),
{
    if items.len() > 0 {
        let front = ranked(items.drop_last());
        let x = items.last();
        let at = place(front, x, front.len() as int);
        law_ranked(items.drop_last());
        lemma_place_bounds(front, x, front.len() as int);
        let all = ranked(items);
        assert(all == front.insert(at, x));
        assert forall|i: int, j: int| 0 <= i < j < all.len() implies !ranks_before(
            (#[trigger] all[j]).rank_key(),
            (#[trigger] all[i]).rank_key(),
        ) by {
            if j < at {
                assert(all[i] == front[i] && all[j] == front[j]);
            } else if j == at {
                assert(all[i] == front[i]);
                if i < at - 1 {
                    assert(!ranks_before(front[at - 1].rank_key(), front[i].rank_key()));
                    lemma_rank_transitive(
                        front[i].rank_key(),
                        front[at - 1].rank_key(),
                        x.rank_key(),
                    );
                }
            } else {
                assert(all[j] == front[j - 1]);
                if i == at {
                    law_rank_order_is_total(x.rank_key(), front[j - 1].rank_key());
                } else if i < at {
                    assert(all[i] == front[i]);
                } else {
                    assert(all[i] == front[i - 1]);
                }
            }
        }
        vstd::seq_lib::to_multiset_insert(front, at, x);
        assert(items =~= items.drop_last().push(x));
        vstd::seq_lib::to_multiset_build(items.drop_last(), x);
    } else {
        assert(ranked(items) =~= items);
    }
}

/// Bits are those of a number unless they are those of a NaN: all ones in the
/// exponent, and not zero behind it.
pub proof fn law_numbers(bits: u64)
    ensures
        is_number(bits) <==> !(bits & 0x7ff0_0000_0000_0000 == 0x7ff0_0000_0000_0000 && bits
            & 0x000f_ffff_ffff_ffff != 0),
{
    assert((bits <= 0x7ff0_0000_0000_0000 || (0x8000_0000_0000_0000 <= bits && bits
        <= 0xfff0_0000_0000_0000)) <==> !(bits & 0x7ff0_0000_0000_0000 == 0x7ff0_0000_0000_0000
        && bits & 0x000f_ffff_ffff_ffff != 0)) by (bit_vector);
}

/// The entries of `s` that have the key `key`, in order.
pub open spec fn with_key<T: Ranked>(s: Seq<T>, key: RankKey) -> Seq<T>
    decreases s.len(),
{
    if s.len() == 0 {
        Seq::empty()
    } else if s.last().rank_key() == key {
        with_key(s.drop_last(), key).push(s.last())
    } else {
        with_key(s.drop_last(), key)
    }
}

proof fn lemma_with_key_concat<T: Ranked>(a: Seq<T>, b: Seq<T>, key: RankKey)
    ensures
        with_key(a + b, key) == with_key(a, key) + with_key(b, key),
    decreases b.len(),
{
    if b.len() == 0 {
        assert(a + b =~= a);
        assert(with_key(a, key) + with_key(b, key) =~= with_key(a, key));
    } else {
        lemma_with_key_concat(a, b.drop_last(), key);
        assert((a + b).drop_last() =~= a + b.drop_last());
        assert(with_key(a + b, key) =~= with_key(a, key) + with_key(b, key));
    }
}

proof fn lemma_without_key<T: Ranked>(s: Seq<T>, key: RankKey)
    requires
        forall|i: int| 0 <= i < s.len() ==> (#[trigger] s[i]).rank_key() != key,
    ensures
        with_key(s, key).len() == 0,
    decreases s.len(),
{
    if s.len() > 0 {
        assert(s[s.len() - 1].rank_key() != key);
        let front = s.drop_last();
        assert forall|i: int| 0 <= i < front.len() implies (#[trigger] front[i]).rank_key()
            != key by {
            assert(front[i] == s[i]);
        }
        lemma_without_key(front, key);
    }
}

/// Entries of one rank keep the order in which they came.
pub proof fn law_equal_ranks_keep_their_order<T: Ranked>(items: Seq<T>, key: RankKey)
    ensures
        with_key(ranked(items), key) == with_key(items, key),
    decreases items.len(),
{
    if items.len() > 0 {
        let front = ranked(items.drop_last());
        let x = items.last();
        let at = place(front, x, front.len() as int);
        law_equal_ranks_keep_their_order(items.drop_last(), key);
        lemma_place_bounds(front, x, front.len() as int);
        let head = front.take(at);
        let tail = front.skip(at);
        assert(front =~= head + tail);
        assert(ranked(items) =~= head + seq![x] + tail);
        lemma_with_key_concat(head, tail, key);
        lemma_with_key_concat(head + seq![x], tail, key);
        lemma_with_key_concat(head, seq![x], key);
        reveal_with_fuel(with_key, 2);
        assert(seq![x].drop_last() =~= Seq::empty());
        if x.rank_key() == key {
            assert forall|i: int| 0 <= i < tail.len() implies (#[trigger] tail[i]).rank_key()
                != key by {
                assert(tail[i] == front[at + i]);
                assert(ranks_before(x.rank_key(), front[at + i].rank_key()));
                law_rank_order_is_total(x.rank_key(), front[at + i].rank_key());
            }
            lemma_without_key(tail, key);
            assert(with_key(tail, key) =~= Seq::empty());
            assert(with_key(seq![x], key) =~= seq![x]);
            assert(with_key(ranked(items), key) =~= with_key(front, key).push(x));
        } else {
            assert(with_key(seq![x], key) =~= Seq::empty());
            assert(with_key(ranked(items), key) =~= with_key(front, key));
        }
    }
}

} // verus!
