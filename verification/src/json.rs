//! JSON values.

use vstd::prelude::*;
use vstd::string::*;

use crate::text::{same_text, trimmed};

verus! {

/// A JSON value as the `serde_json` crate holds it.
#[verifier::external_type_specification]
#[verifier::external_body]
pub struct ExJsonValue(serde_json::Value);

/// A JSON number as the `serde_json` crate holds it.
#[verifier::external_type_specification]
#[verifier::external_body]
pub struct ExJsonNumber(serde_json::Number);

/// A JSON value.
#[derive(Debug, PartialEq)]
pub enum Json {
    Null,
    Bool(bool),
    Unsigned(u64),
    Signed(i64),
    /// Any number, as the `serde_json` crate holds it; one that is no machine
    /// integer always stands here.
    Decimal(serde_json::Number),
    Text(String),
    Array(Vec<Json>),
    /// Keys and values; of two with the same key the later one counts.
    Object(Vec<(String, Json)>),
}

/// The mathematical value of a [`Json`].
#[verifier::ext_equal]
pub enum JsonView {
    Null,
    Bool(bool),
    Integer(int),
    /// A number that is no machine integer.
    Decimal(serde_json::Number),
    Text(Seq<char>),
    Array(Seq<JsonView>),
    Object(Map<Seq<char>, JsonView>),
}

/// What `serde_json::Number::as_u64` gives.
pub uninterp spec fn number_as_u64(n: serde_json::Number) -> Option<u64>;

/// What `serde_json::Number::as_i64` gives.
pub uninterp spec fn number_as_i64(n: serde_json::Number) -> Option<i64>;

/// What a number of the `serde_json` crate is: a machine integer where it gives
/// itself as one, and otherwise itself.
pub open spec fn number_view(n: serde_json::Number) -> JsonView {
    match (number_as_u64(n), number_as_i64(n)) {
        (Some(u), _) => JsonView::Integer(u as int),
        (None, Some(i)) => JsonView::Integer(i as int),
        (None, None) => JsonView::Decimal(n),
    }
}

/// The last of the first `n` pairs that has the key `key`, or -1.
pub open spec fn last_with_key<V>(pairs: Seq<(String, V)>, key: Seq<char>, n: int) -> int
    decreases n,
{
    if n <= 0 {
        -1
    } else if pairs[n - 1].0@ == key {
        n - 1
    } else {
        last_with_key(pairs, key, n - 1)
    }
}

/// What is found is a pair with the key, and no later one has it.
pub proof fn lemma_last_with_key<V>(pairs: Seq<(String, V)>, key: Seq<char>, n: int)
    requires
        0 <= n <= pairs.len(),
    ensures
        -1 <= last_with_key(pairs, key, n) < n,
        0 <= last_with_key(pairs, key, n) ==> pairs[last_with_key(pairs, key, n)].0@ == key,
        forall|i: int|
            last_with_key(pairs, key, n) < i < n ==> (#[trigger] pairs[i]).0@ != key,
    decreases n,
{
    if n > 0 && pairs[n - 1].0@ != key {
        lemma_last_with_key(pairs, key, n - 1);
    }
}

impl View for Json {
    type V = JsonView;

    open spec fn view(&self) -> JsonView
        decreases self,
    {
        match self {
            Json::Null => JsonView::Null,
            Json::Bool(b) => JsonView::Bool(*b),
            Json::Unsigned(n) => JsonView::Integer(*n as int),
            Json::Signed(n) => JsonView::Integer(*n as int),
            Json::Decimal(d) => number_view(*d),
            Json::Text(t) => JsonView::Text(t@),
            Json::Array(a) => JsonView::Array(
                Seq::new(
                    a@.len(),
                    |i: int|
                        if 0 <= i < a@.len() {
                            a@[i].view()
                        } else {
                            JsonView::Null
                        },
                ),
            ),
            Json::Object(o) => JsonView::Object(
                Map::new(
                    |k: Seq<char>| 0 <= last_with_key(o@, k, o@.len() as int),
                    |k: Seq<char>|
                        {
                            let i = last_with_key(o@, k, o@.len() as int);
                            if 0 <= i < o@.len() {
                                o@[i].1.view()
                            } else {
                                JsonView::Null
                            }
                        },
                ),
            ),
        }
    }
}

/// Whether no two pairs have the same key.
pub open spec fn distinct_keys<V>(pairs: Seq<(String, V)>) -> bool {
    forall|i: int, j: int|
        0 <= i < j < pairs.len() ==> (#[trigger] pairs[i]).0@ != (#[trigger] pairs[j]).0@
}

/// Among distinct keys each pair is the last with its key.
proof fn lemma_distinct_last<V>(pairs: Seq<(String, V)>, i: int)
    requires
        distinct_keys(pairs),
        0 <= i < pairs.len(),
    ensures
        last_with_key(pairs, pairs[i].0@, pairs.len() as int) == i,
{
    let key = pairs[i].0@;
    let n = pairs.len() as int;
    lemma_last_with_key(pairs, key, n);
    let j = last_with_key(pairs, key, n);
    if j < i {
        assert(pairs[i].0@ != key);
    } else if j > i {
        assert(pairs[i].0@ != pairs[j].0@);
    }
}

/// The keys of pairs are finitely many.
proof fn lemma_keys_finite<V>(pairs: Seq<(String, V)>, keys: Set<Seq<char>>)
    requires
        forall|k: Seq<char>| #[trigger]
            keys.contains(k) ==> 0 <= last_with_key(pairs, k, pairs.len() as int),
    ensures
        keys.finite(),
{
    let list = pairs.map_values(|p: (String, V)| p.0@);
    assert forall|k: Seq<char>| keys.contains(k) implies list.to_set().contains(k) by {
        lemma_last_with_key(pairs, k, pairs.len() as int);
        let i = last_with_key(pairs, k, pairs.len() as int);
        assert(list[i] == k);
    }
    vstd::seq_lib::seq_to_set_is_finite(list);
    vstd::set_lib::lemma_set_subset_finite(list.to_set(), keys);
}

/// The member of an object is smaller than the object.
proof fn lemma_member_decreases(o: Vec<(String, serde_json::Value)>, i: int, content: JsonView)
    requires
        content == open_view(OpenValue::Object(o)),
        distinct_keys(o@),
        0 <= i < o@.len(),
    ensures
        decreases_to!(content => value_content(o@[i].1)),
{
    let map = content->Object_0;
    let key = o@[i].0@;
    lemma_distinct_last(o@, i);
    lemma_keys_finite(o@, map.dom());
    assert(map.contains_key(key));
    assert(map[key] == value_content(o@[i].1));
    assert(decreases_to!(map => map[key]));
}

/// A JSON value whose members are still held by the `serde_json` crate.
enum OpenValue {
    Null,
    Bool(bool),
    Number(serde_json::Number),
    Text(String),
    Array(Vec<serde_json::Value>),
    Object(Vec<(String, serde_json::Value)>),
}

/// What a value of the `serde_json` crate holds.
pub uninterp spec fn value_content(v: serde_json::Value) -> JsonView;

/// What a text is as JSON, where it is JSON.
pub uninterp spec fn parsed_json(text: Seq<char>) -> Option<JsonView>;

/// The compact text of a JSON value, its keys in order.
pub uninterp spec fn json_text(j: JsonView) -> Seq<char>;

spec fn open_view(v: OpenValue) -> JsonView {
    match v {
        OpenValue::Null => JsonView::Null,
        OpenValue::Bool(b) => JsonView::Bool(b),
        OpenValue::Number(n) => number_view(n),
        OpenValue::Text(t) => JsonView::Text(t@),
        OpenValue::Array(a) => JsonView::Array(
            a@.map_values(|x: serde_json::Value| value_content(x)),
        ),
        OpenValue::Object(o) => JsonView::Object(
            Map::new(
                |k: Seq<char>| 0 <= last_with_key(o@, k, o@.len() as int),
                |k: Seq<char>| value_content(o@[last_with_key(o@, k, o@.len() as int)].1),
            ),
        ),
    }
}

/// Tells the variants of `serde_json::Value` apart. The pairs of an object are all
/// it holds, each key once.
#[verifier::external_body]
fn open_value(v: serde_json::Value) -> (r: OpenValue)
    ensures
        open_view(r) == value_content(v),
        r matches OpenValue::Object(o) ==> distinct_keys(o@),
{
    match v {
        serde_json::Value::Null => OpenValue::Null,
        serde_json::Value::Bool(b) => OpenValue::Bool(b),
        serde_json::Value::Number(n) => OpenValue::Number(n),
        serde_json::Value::String(t) => OpenValue::Text(t),
        serde_json::Value::Array(a) => OpenValue::Array(a),
        serde_json::Value::Object(o) => OpenValue::Object(o.into_iter().collect()),
    }
}

/// Builds a `serde_json::Value`. Of pairs with the same key the last one counts.
#[verifier::external_body]
fn close_value(v: OpenValue) -> (r: serde_json::Value)
    ensures
        value_content(r) == open_view(v),
{
    match v {
        OpenValue::Null => serde_json::Value::Null,
        OpenValue::Bool(b) => serde_json::Value::Bool(b),
        OpenValue::Number(n) => serde_json::Value::Number(n),
        OpenValue::Text(t) => serde_json::Value::String(t),
        OpenValue::Array(a) => serde_json::Value::Array(a),
        OpenValue::Object(o) => serde_json::Value::Object(o.into_iter().collect()),
    }
}

/// `serde_json::Number::as_u64`: the number, where it is an integer from 0 to
/// `u64::MAX`. It depends on the number alone.
#[verifier::external_body]
fn unsigned_of(n: &serde_json::Number) -> (r: Option<u64>)
    ensures
        r == number_as_u64(*n),
{
    n.as_u64()
}

/// `serde_json::Number::as_i64`: the number, where it is an integer from
/// `i64::MIN` to `i64::MAX`. It depends on the number alone.
#[verifier::external_body]
fn signed_of(n: &serde_json::Number) -> (r: Option<i64>)
    ensures
        r == number_as_i64(*n),
{
    n.as_i64()
}

/// `serde_json::Number`'s `From<u64>`: the number that gives itself as `n`.
#[verifier::external_body]
fn unsigned_number(n: u64) -> (r: serde_json::Number)
    ensures
        number_as_u64(r) == Some(n),
{
    serde_json::Number::from(n)
}

/// `serde_json::Number`'s `From<i64>`: the number that gives itself as `n`, signed
/// and, from 0 on, unsigned.
#[verifier::external_body]
fn signed_number(n: i64) -> (r: serde_json::Number)
    ensures
        number_as_i64(r) == Some(n),
        number_as_u64(r) == (if n >= 0 {
            Some(n as u64)
        } else {
            None
        }),
{
    serde_json::Number::from(n)
}

/// `serde_json::Number::clone`: the same number.
#[verifier::external_body]
fn clone_number(n: &serde_json::Number) -> (r: serde_json::Number)
    ensures
        r == *n,
{
    n.clone()
}

/// `serde_json::from_str` into a `serde_json::Value`: what `text` is as JSON, or
/// nothing where it is not. It depends on the text alone.
#[verifier::external_body]
fn read_value(text: &str) -> (r: Option<serde_json::Value>)
    ensures
        match r {
            Some(v) => parsed_json(text@) == Some(value_content(v)),
            None => parsed_json(text@) is None,
        },
{
    serde_json::from_str(text).ok()
}

/// Whether `j` is made of integers, texts, booleans and nulls, and nested at
/// most `depth` deep.
pub open spec fn is_plain(j: JsonView, depth: nat) -> bool
    decreases depth,
{
    match j {
        JsonView::Decimal(_) => false,
        JsonView::Array(a) => depth > 0 && forall|i: int|
            0 <= i < a.len() ==> is_plain(#[trigger] a[i], (depth - 1) as nat),
        JsonView::Object(o) => depth > 0 && forall|k: Seq<char>| #[trigger]
            o.contains_key(k) ==> is_plain(o[k], (depth - 1) as nat),
        _ => true,
    }
}

/// `serde_json::Value` as a text, by its `Display`: compact, never empty, without
/// white space at either end, and for a value of integers, texts, booleans and
/// nulls that is not nested too deep for the parser, a text that parses to the
/// value again.
#[verifier::external_body]
fn write_value(v: &serde_json::Value) -> (r: String)
    ensures
        r@ == json_text(value_content(*v)),
        r@.len() > 0,
        trimmed(r@) == r@,
        is_plain(value_content(*v), 100) ==> parsed_json(r@) == Some(value_content(*v)),
{
    v.to_string()
}

impl Json {
    /// What a value of the `serde_json` crate holds.
    pub fn from_value(v: serde_json::Value) -> (r: Json)
        ensures
            r@ == value_content(v),
        decreases value_content(v),
    {
        let ghost content = value_content(v);
        match open_value(v) {
            OpenValue::Null => Json::Null,
            OpenValue::Bool(b) => Json::Bool(b),
            OpenValue::Number(n) => match unsigned_of(&n) {
                Some(u) => Json::Unsigned(u),
                None => match signed_of(&n) {
                    Some(i) => Json::Signed(i),
                    None => Json::Decimal(n),
                },
            },
            OpenValue::Text(t) => Json::Text(t),
            OpenValue::Array(a) => {
                let mut out: Vec<Json> = Vec::new();
                let ghost all = a@;
                proof {
                    assert(content->Array_0.len() == all.len());
                }
                for x in it: a
                    invariant
                        it.seq() == all,
                        content is Array,
                        content->Array_0 == all.map_values(
                            |x: serde_json::Value| value_content(x),
                        ),
                        out@.len() == it.index(),
                        content == value_content(v),
                        forall|k: int| 0 <= k < out@.len() ==> (#[trigger] out@[k])@
                            == content->Array_0[k],
                {
                    proof {
                        assert(content->Array_0[it.index()] == value_content(x));
                    }
                    let y = Json::from_value(x);
                    out.push(y);
                }
                let r = Json::Array(out);
                proof {
                    assert(r@->Array_0 =~= content->Array_0);
                }
                r
            },
            OpenValue::Object(o) => {
                let mut out: Vec<(String, Json)> = Vec::new();
                let ghost all = o@;
                let ghost map = content->Object_0;
                for x in it: o
                    invariant
                        it.seq() == all,
                        content is Object,
                        content == value_content(v),
                        content == open_view(OpenValue::Object(o)),
                        distinct_keys(o@),
                        o@ == all,
                        out@.len() == it.index(),
                        forall|k: int|
                            0 <= k < out@.len() ==> (#[trigger] out@[k]).0@ == all[k].0@
                                && (out@[k].1)@ == value_content(all[k].1),
                {
                    proof {
                        lemma_member_decreases(o, it.index(), content);
                    }
                    let y = Json::from_value(x.1);
                    out.push((x.0, y));
                }
                let r = Json::Object(out);
                proof {
                    assert forall|k: Seq<char>, n: int| 0 <= n <= all.len() implies last_with_key(
                        out@,
                        k,
                        n,
                    ) == #[trigger] last_with_key(all, k, n) by {
                        lemma_same_keys(out@, all, k, n);
                    }
                    assert(r@->Object_0 =~= map) by {
                        assert forall|k: Seq<char>| #[trigger] r@->Object_0.contains_key(
                            k,
                        ) implies r@->Object_0[k] == map[k] by {
                            lemma_last_with_key(all, k, all.len() as int);
                        }
                    }
                }
                r
            },
        }
    }

    /// The value as the `serde_json` crate holds it.
    pub fn to_value(&self) -> (r: serde_json::Value)
        ensures
            value_content(r) == self@,
        decreases self,
    {
        match self {
            Json::Null => close_value(OpenValue::Null),
            Json::Bool(b) => close_value(OpenValue::Bool(*b)),
            Json::Unsigned(n) => close_value(OpenValue::Number(unsigned_number(*n))),
            Json::Signed(n) => close_value(OpenValue::Number(signed_number(*n))),
            Json::Decimal(d) => close_value(OpenValue::Number(clone_number(d))),
            Json::Text(t) => close_value(OpenValue::Text(t.clone())),
            Json::Array(a) => {
                let mut out: Vec<serde_json::Value> = Vec::new();
                let n: usize = a.len();
                let mut i: usize = 0;
                while i < n
                    invariant
                        0 <= i <= n,
                        n == a@.len(),
                        *self == Json::Array(*a),
                        out@.len() == i,
                        forall|k: int|
                            0 <= k < i ==> value_content(#[trigger] out@[k]) == a@[k]@,
                    decreases n - i,
                {
                    proof {
                        assert(self->Array_0 == *a);
                        assert(decreases_to!(*self => self->Array_0));
                        assert(decreases_to!(*a => (*a)[i as int]));
                    }
                    let x = a[i].to_value();
                    out.push(x);
                    i += 1;
                }
                let opened = OpenValue::Array(out);
                proof {
                    assert(open_view(opened)->Array_0 =~= self@->Array_0);
                }
                close_value(opened)
            },
            Json::Object(o) => {
                let mut out: Vec<(String, serde_json::Value)> = Vec::new();
                let n: usize = o.len();
                let mut i: usize = 0;
                while i < n
                    invariant
                        0 <= i <= n,
                        n == o@.len(),
                        *self == Json::Object(*o),
                        out@.len() == i,
                        forall|k: int|
                            0 <= k < i ==> (#[trigger] out@[k]).0@ == o@[k].0@ && value_content(
                                out@[k].1,
                            ) == (o@[k].1)@,
                    decreases n - i,
                {
                    let pair = &o[i];
                    proof {
                        assert(self->Object_0 == *o);
                        assert(decreases_to!(*self => self->Object_0));
                        assert(decreases_to!(*o => (*o)[i as int]));
                        assert(decreases_to!((*o)[i as int] => (*o)[i as int].1));
                    }
                    let x = pair.1.to_value();
                    out.push((pair.0.clone(), x));
                    i += 1;
                }
                let opened = OpenValue::Object(out);
                proof {
                    assert forall|k: Seq<char>| last_with_key(out@, k, n as int)
                        == #[trigger] last_with_key(o@, k, n as int) by {
                        lemma_same_keys(out@, o@, k, n as int);
                    }
                    let a = open_view(opened)->Object_0;
                    let b = self@->Object_0;
                    assert forall|k: Seq<char>| a.contains_key(k) == b.contains_key(k) by {
                        assert(last_with_key(out@, k, n as int) == last_with_key(o@, k, n as int));
                    }
                    assert forall|k: Seq<char>| b.contains_key(k) implies a[k] == b[k] by {
                        assert(last_with_key(out@, k, n as int) == last_with_key(o@, k, n as int));
                        lemma_last_with_key(o@, k, n as int);
                    }
                    assert(a =~= b);
                }
                close_value(opened)
            },
        }
    }

    /// What `text` is as JSON, where it is JSON.
    pub fn parse(text: &str) -> (r: Option<Json>)
        ensures
            match r {
                Some(j) => parsed_json(text@) == Some(j@),
                None => parsed_json(text@) is None,
            },
    {
        match read_value(text) {
            Some(v) => Some(Json::from_value(v)),
            None => None,
        }
    }

    /// The compact text of this value, its keys in order.
    pub fn render(&self) -> (r: String)
        ensures
            r@ == json_text(self@),
            r@.len() > 0,
            trimmed(r@) == r@,
            is_plain(self@, 100) ==> parsed_json(r@) == Some(self@),
    {
        let v = self.to_value();
        write_value(&v)
    }

    /// The member of an object under `key`.
    pub fn get(&self, key: &str) -> (r: Option<&Json>)
        ensures
            match member(self@, key@) {
                Some(j) => r is Some && r->0@ == j,
                None => r is None,
            },
    {
        match self {
            Json::Object(o) => {
                let mut i: usize = o.len();
                while i > 0
                    invariant
                        0 <= i <= o@.len(),
                        *self == Json::Object(*o),
                        last_with_key(o@, key@, o@.len() as int) == last_with_key(
                            o@,
                            key@,
                            i as int,
                        ),
                    decreases i,
                {
                    if same_text(o[i - 1].0.as_str(), key) {
                        return Some(&o[i - 1].1);
                    }
                    i -= 1;
                }
                None
            },
            _ => None,
        }
    }

    /// The text, where the value is one.
    pub fn as_str(&self) -> (r: Option<&str>)
        ensures
            match self@ {
                JsonView::Text(t) => r is Some && r->0@ == t,
                _ => r is None,
            },
    {
        match self {
            Json::Text(t) => Some(t.as_str()),
            _ => None,
        }
    }

    /// The number, where the value is an integer from 0 on.
    pub fn as_u64(&self) -> (r: Option<u64>)
        ensures
            match self@ {
                JsonView::Integer(n) if n >= 0 => r is Some && r->0 == n,
                _ => r is None,
            },
    {
        match self {
            Json::Unsigned(n) => Some(*n),
            Json::Signed(n) => if *n >= 0 {
                Some(*n as u64)
            } else {
                None
            },
            Json::Decimal(d) => match (unsigned_of(d), signed_of(d)) {
                (Some(u), _) => Some(u),
                (None, Some(i)) if i >= 0 => Some(i as u64),
                _ => None,
            },
            _ => None,
        }
    }

    /// The truth value, where the value is one.
    pub fn as_bool(&self) -> (r: Option<bool>)
        ensures
            r == (match self@ {
                JsonView::Bool(b) => Some(b),
                _ => None,
            }),
    {
        match self {
            Json::Bool(b) => Some(*b),
            _ => None,
        }
    }
}

/// The member of an object under a key.
pub open spec fn member(j: JsonView, key: Seq<char>) -> Option<JsonView> {
    match j {
        JsonView::Object(o) => if o.contains_key(key) {
            Some(o[key])
        } else {
            None
        },
        _ => None,
    }
}

/// Pairs with the same keys have the same last pair of a key.
proof fn lemma_same_keys<V, W>(a: Seq<(String, V)>, b: Seq<(String, W)>, key: Seq<char>, n: int)
    requires
        0 <= n <= a.len(),
        a.len() == b.len(),
        forall|k: int| 0 <= k < a.len() ==> (#[trigger] a[k]).0@ == b[k].0@,
    ensures
        last_with_key(a, key, n) == last_with_key(b, key, n),
    decreases n,
{
    if n > 0 {
        assert(a[n - 1].0@ == b[n - 1].0@);
        lemma_same_keys(a, b, key, n - 1);
    }
}

/// The members of an object that is made of `pairs`.
pub open spec fn members(pairs: Vec<(String, Json)>) -> Map<Seq<char>, JsonView> {
    Json::Object(pairs)@->Object_0
}

/// Pairs without members.
pub fn no_members() -> (r: Vec<(String, Json)>)
    ensures
        members(r) == Map::<Seq<char>, JsonView>::empty(),
{
    let r: Vec<(String, Json)> = Vec::new();
    proof {
        assert(members(r) =~= Map::empty());
    }
    r
}

/// Adds a member.
pub fn put(pairs: &mut Vec<(String, Json)>, key: &str, value: Json)
    ensures
        members(*final(pairs)) == members(*old(pairs)).insert(key@, value@),
{
    let ghost before = pairs@;
    let ghost old_members = members(*pairs);
    pairs.push((key.to_owned(), value));
    proof {
        let n = before.len() as int;
        let a = members(*pairs);
        let b = old_members.insert(key@, value@);
        assert forall|k: Seq<char>|
            #![trigger a.dom().contains(k)]
            #![trigger b.dom().contains(k)]
            #![trigger a[k]]
            #![trigger b[k]]
            a.dom().contains(k) == b.dom().contains(k) && (b.dom().contains(k) ==> a[k] == b[k]) by {
            lemma_prefix_last(before, pairs@, k, n);
            lemma_last_with_key(before, k, n);
            if k == key@ {
                assert(last_with_key(pairs@, k, n + 1) == n);
            } else {
                assert(last_with_key(pairs@, k, n + 1) == last_with_key(pairs@, k, n));
            }
        }
        assert(a =~= b);
    }
}

proof fn lemma_prefix_last<V>(a: Seq<(String, V)>, b: Seq<(String, V)>, key: Seq<char>, n: int)
    requires
        0 <= n <= a.len(),
        n <= b.len(),
        forall|i: int| 0 <= i < n ==> a[i] == b[i],
    ensures
        last_with_key(a, key, n) == last_with_key(b, key, n),
    decreases n,
{
    if n > 0 {
        lemma_prefix_last(a, b, key, n - 1);
    }
}

/// The members that the first `n` pairs make.
pub open spec fn first_members(pairs: Seq<(String, Json)>, n: int) -> Map<Seq<char>, JsonView>
    decreases n,
{
    if n <= 0 {
        Map::empty()
    } else {
        first_members(pairs, n - 1).insert(pairs[n - 1].0@, (pairs[n - 1].1)@)
    }
}

/// All pairs make the members of the object.
pub proof fn lemma_first_members(pairs: Vec<(String, Json)>)
    ensures
        first_members(pairs@, pairs@.len() as int) == members(pairs),
{
    let a = first_members(pairs@, pairs@.len() as int);
    let b = members(pairs);
    assert forall|k: Seq<char>|
        #![trigger a.dom().contains(k)]
        #![trigger b.dom().contains(k)]
        #![trigger a[k]]
        #![trigger b[k]]
        a.dom().contains(k) == b.dom().contains(k) && (b.dom().contains(k) ==> a[k] == b[k]) by {
        lemma_first_members_at(pairs@, k, pairs@.len() as int);
        lemma_last_with_key(pairs@, k, pairs@.len() as int);
    }
    assert(a =~= b);
}

proof fn lemma_first_members_at(pairs: Seq<(String, Json)>, k: Seq<char>, n: int)
    requires
        0 <= n <= pairs.len(),
    ensures
        first_members(pairs, n).contains_key(k) == (0 <= last_with_key(pairs, k, n)),
        0 <= last_with_key(pairs, k, n) ==> first_members(pairs, n)[k] == (
        pairs[last_with_key(pairs, k, n)].1)@,
    decreases n,
{
    if n > 0 {
        lemma_first_members_at(pairs, k, n - 1);
    }
}

/// An object has a member for each key that is given, and of pairs with one key the
/// last counts.
pub proof fn law_object_members(pairs: Vec<(String, Json)>, key: Seq<char>, k: int)
    ensures
        Json::Object(pairs)@ is Object,
        0 <= k < pairs@.len() && pairs@[k].0@ == key && (forall|j: int|
            k < j < pairs@.len() ==> (#[trigger] pairs@[j]).0@ != key) ==> member(
            Json::Object(pairs)@,
            key,
        ) == Some(pairs@[k].1@),
        (forall|j: int| 0 <= j < pairs@.len() ==> (#[trigger] pairs@[j]).0@ != key) ==> member(
            Json::Object(pairs)@,
            key,
        ) is None,
{
    let n = pairs@.len() as int;
    lemma_last_with_key(pairs@, key, n);
    let m = last_with_key(pairs@, key, n);
    if 0 <= k < pairs@.len() && pairs@[k].0@ == key && (forall|j: int|
        k < j < pairs@.len() ==> (#[trigger] pairs@[j]).0@ != key) {
        if m < k {
            assert(pairs@[k].0@ != key);
        } else if m > k {
            assert(pairs@[m].0@ != key);
        }
    }
}

/// Nothing but an object has members, and an array has the values of its items.
pub proof fn law_other_values(j: JsonView, items: Vec<Json>, key: Seq<char>, i: int)
    ensures
        !(j is Object) ==> member(j, key) is None,
        Json::Array(items)@ matches JsonView::Array(a) && a.len() == items@.len() && (0 <= i
            < items@.len() ==> a[i] == items@[i]@),
{
}

/// A number that is a machine integer is that integer, and any other stays what it
/// is.
pub proof fn law_numbers_are_integers_where_they_can_be(n: serde_json::Number)
    ensures
        number_as_u64(n) matches Some(u) ==> number_view(n) == JsonView::Integer(u as int),
        number_as_u64(n) is None ==> (number_as_i64(n) matches Some(i) ==> number_view(n)
            == JsonView::Integer(i as int)),
        number_as_u64(n) is None && number_as_i64(n) is None ==> number_view(n)
            == JsonView::Decimal(n),
{
}

/// A value that is nested no deeper than it may be is nested no deeper than any
/// larger limit, and what it holds is nested one less deep.
pub proof fn law_plain_values(j: JsonView, depth: nat, key: Seq<char>)
    requires
        is_plain(j, depth),
    ensures
        !(j is Decimal),
        j is Array || j is Object ==> depth > 0,
        member(j, key) matches Some(v) ==> is_plain(v, (depth - 1) as nat),
        j matches JsonView::Array(a) ==> forall|i: int|
            0 <= i < a.len() ==> is_plain(#[trigger] a[i], (depth - 1) as nat),
{
}

} // verus!
