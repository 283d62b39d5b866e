//! The version of an indexing policy: a hash of its canonical form.

use vstd::prelude::*;
use vstd::string::*;

use crate::config::schema::IndexingPolicyConfig;
use crate::ids::{content_hash, content_hash_of};
use crate::json::{is_plain, json_text, members, no_members, parsed_json, put, Json, JsonView};
use crate::text::texts;

verus! {

/// What an indexing policy comes down to.
#[verifier::ext_equal]
pub struct PolicyView {
    pub overrides: Map<Seq<char>, Seq<char>>,
    pub model: Seq<char>,
    pub provider: Seq<char>,
    pub parsers: Seq<Seq<char>>,
}

/// The presets by kind of source; of two for one kind the later one counts.
pub open spec fn override_map(pairs: Seq<(String, String)>) -> Map<Seq<char>, Seq<char>>
    decreases pairs.len(),
{
    if pairs.len() == 0 {
        Map::empty()
    } else {
        override_map(pairs.drop_last()).insert(pairs.last().0@, pairs.last().1@)
    }
}

/// What a policy comes down to.
pub open spec fn policy_view(policy: IndexingPolicyConfig) -> PolicyView {
    PolicyView {
        overrides: override_map(policy.chunking.preset_overrides@),
        model: policy.embedding.model@,
        provider: policy.embedding.provider@,
        parsers: texts(policy.parsers@),
    }
}

/// A map of texts as JSON.
pub open spec fn text_members(m: Map<Seq<char>, Seq<char>>) -> Map<Seq<char>, JsonView> {
    Map::new(|k: Seq<char>| m.contains_key(k), |k: Seq<char>| JsonView::Text(m[k]))
}

/// A list of texts as JSON.
pub open spec fn text_items(s: Seq<Seq<char>>) -> Seq<JsonView> {
    s.map_values(|t: Seq<char>| JsonView::Text(t))
}

/// The canonical form of a policy: chunking with the name of its algorithm,
/// embedding, and the parsers in order.
pub open spec fn policy_json(p: PolicyView) -> JsonView {
    JsonView::Object(
        Map::<Seq<char>, JsonView>::empty().insert(
            "chunking"@,
            JsonView::Object(
                Map::<Seq<char>, JsonView>::empty().insert(
                    "preset_overrides"@,
                    JsonView::Object(text_members(p.overrides)),
                ).insert("algorithm"@, JsonView::Text("textsplitter-md-v6"@)),
            ),
        ).insert(
            "embedding"@,
            JsonView::Object(
                Map::<Seq<char>, JsonView>::empty().insert("model"@, JsonView::Text(p.model)).insert(
                    "provider"@,
                    JsonView::Text(p.provider),
                ),
            ),
        ).insert("parsers"@, JsonView::Array(text_items(p.parsers))),
    )
}

fn overrides_json(pairs: &Vec<(String, String)>) -> (r: Json)
    ensures
        r@ == JsonView::Object(text_members(override_map(pairs@))),
{
    let mut out = no_members();
    let n: usize = pairs.len();
    let mut i: usize = 0;
    proof {
        assert(members(out) =~= text_members(override_map(pairs@.take(0))));
    }
    while i < n
        invariant
            0 <= i <= n,
            n == pairs@.len(),
            members(out) == text_members(override_map(pairs@.take(i as int))),
        decreases n - i,
    {
        let ghost before = override_map(pairs@.take(i as int));
        let value = Json::Text(pairs[i].1.clone());
        put(&mut out, pairs[i].0.as_str(), value);
        proof {
            let next = pairs@.take(i + 1);
            assert(next.drop_last() =~= pairs@.take(i as int));
            assert(next.last() == pairs@[i as int]);
            assert(text_members(before).insert(
                pairs@[i as int].0@,
                JsonView::Text(pairs@[i as int].1@),
            ) =~= text_members(before.insert(pairs@[i as int].0@, pairs@[i as int].1@)));
        }
        i += 1;
    }
    proof {
        assert(pairs@.take(n as int) =~= pairs@);
    }
    Json::Object(out)
}

fn texts_json(items: &Vec<String>) -> (r: Json)
    ensures
        r@ == JsonView::Array(text_items(texts(items@))),
{
    let mut out: Vec<Json> = Vec::new();
    let n: usize = items.len();
    let mut i: usize = 0;
    while i < n
        invariant
            0 <= i <= n,
            n == items@.len(),
            out@.len() == i,
            forall|k: int|
                0 <= k < i ==> (#[trigger] out@[k])@ == JsonView::Text(items@[k]@),
        decreases n - i,
    {
        out.push(Json::Text(items[i].clone()));
        i += 1;
    }
    let r = Json::Array(out);
    proof {
        assert(r@->Array_0 =~= text_items(texts(items@)));
    }
    r
}

proof fn lemma_policy_json_plain(p: PolicyView)
    ensures
        is_plain(policy_json(p), 100),
{
    reveal_with_fuel(is_plain, 5);
    let root = policy_json(p)->Object_0;
    assert forall|k: Seq<char>| #[trigger] root.contains_key(k) implies is_plain(root[k], 99) by {
        let j = root[k];
        if j is Object {
            let o = j->Object_0;
            assert forall|m: Seq<char>| #[trigger] o.contains_key(m) implies is_plain(
                o[m],
                98,
            ) by {
                if o[m] is Object {
                    let q = o[m]->Object_0;
                    assert forall|x: Seq<char>| #[trigger] q.contains_key(x) implies is_plain(
                        q[x],
                        97,
                    ) by {}
                }
            }
        } else if j is Array {
            let a = j->Array_0;
            assert forall|i: int| 0 <= i < a.len() implies is_plain(#[trigger] a[i], 98) by {}
        }
    }
}

/// The canonical text of a policy, in which keys are in order. It parses to the
/// canonical form again.
pub fn canonical_policy_json(policy: &IndexingPolicyConfig) -> (r: String)
    ensures
        r@ == json_text(policy_json(policy_view(*policy))),
        parsed_json(r@) == Some(policy_json(policy_view(*policy))),
{
    let mut chunking = no_members();
    put(&mut chunking, "preset_overrides", overrides_json(&policy.chunking.preset_overrides));
    put(&mut chunking, "algorithm", Json::Text("textsplitter-md-v6".to_owned()));
    let mut embedding = no_members();
    put(&mut embedding, "model", Json::Text(policy.embedding.model.clone()));
    put(&mut embedding, "provider", Json::Text(policy.embedding.provider.clone()));
    let mut root = no_members();
    put(&mut root, "chunking", Json::Object(chunking));
    put(&mut root, "embedding", Json::Object(embedding));
    put(&mut root, "parsers", texts_json(&policy.parsers));
    let value = Json::Object(root);
    proof {
        lemma_policy_json_plain(policy_view(*policy));
    }
    value.render()
}

/// The version of an indexing policy: the hash of its canonical text.
pub fn compute_policy_version(policy: &IndexingPolicyConfig) -> (r: String)
    ensures
        r@ == content_hash_of(json_text(policy_json(policy_view(*policy)))),
        r@.len() == 64,
{
    let canonical = canonical_policy_json(policy);
    content_hash(canonical.as_str())
}

// ---------------------------------------------------------------------------
// Laws
// ---------------------------------------------------------------------------

proof fn lemma_policy_keys()
    ensures
        "chunking"@.len() == 8,
        "embedding"@.len() == 9,
        "parsers"@.len() == 7,
        "preset_overrides"@.len() == 16,
        "algorithm"@.len() == 9,
        "model"@.len() == 5,
        "provider"@.len() == 8,
{
    reveal_strlit("chunking");
    reveal_strlit("embedding");
    reveal_strlit("parsers");
    reveal_strlit("preset_overrides");
    reveal_strlit("algorithm");
    reveal_strlit("model");
    reveal_strlit("provider");
}

/// Different policies have different canonical forms.
pub proof fn law_policy_form_is_faithful(a: PolicyView, b: PolicyView)
    requires
        policy_json(a) == policy_json(b),
    ensures
        a == b,
{
    lemma_policy_keys();
    let x = policy_json(a)->Object_0;
    let y = policy_json(b)->Object_0;
    let cx = x["chunking"@]->Object_0;
    let cy = y["chunking"@]->Object_0;
    let ox = cx["preset_overrides"@]->Object_0;
    let oy = cy["preset_overrides"@]->Object_0;
    assert(ox == text_members(a.overrides));
    assert(oy == text_members(b.overrides));
    assert(a.overrides =~= b.overrides) by {
        assert forall|k: Seq<char>| a.overrides.contains_key(k) == b.overrides.contains_key(k) by {
            assert(ox.contains_key(k) == oy.contains_key(k));
        }
        assert forall|k: Seq<char>| a.overrides.contains_key(k) implies a.overrides[k]
            == b.overrides[k] by {
            assert(ox[k] == oy[k]);
        }
    }
    let ex = x["embedding"@]->Object_0;
    let ey = y["embedding"@]->Object_0;
    assert(ex["model"@] == JsonView::Text(a.model));
    assert(ey["model"@] == JsonView::Text(b.model));
    assert(ex["provider"@] == JsonView::Text(a.provider));
    assert(ey["provider"@] == JsonView::Text(b.provider));
    let px = x["parsers"@]->Array_0;
    let py = y["parsers"@]->Array_0;
    assert(px == text_items(a.parsers));
    assert(py == text_items(b.parsers));
    assert(a.parsers =~= b.parsers) by {
        assert(px.len() == py.len());
        assert forall|i: int| 0 <= i < a.parsers.len() implies a.parsers[i] == b.parsers[i] by {
            assert(px[i] == py[i]);
        }
    }
}

/// The texts that [`canonical_policy_json`] gives for two policies are the same
/// only for the same policy, and then always.
pub proof fn law_policy_text_is_faithful(
    a: PolicyView,
    b: PolicyView,
    text_a: Seq<char>,
    text_b: Seq<char>,
)
    requires
        text_a == json_text(policy_json(a)),
        text_b == json_text(policy_json(b)),
        parsed_json(text_a) == Some(policy_json(a)),
        parsed_json(text_b) == Some(policy_json(b)),
    ensures
        text_a == text_b <==> a == b,
{
    if text_a == text_b {
        law_policy_form_is_faithful(a, b);
    }
}

/// The order in which presets for different kinds are given does not matter.
pub proof fn law_override_order_is_irrelevant(
    pairs: Seq<(String, String)>,
    p: (String, String),
    q: (String, String),
)
    requires
        p.0@ != q.0@,
    ensures
        override_map(pairs.push(p).push(q)) == override_map(pairs.push(q).push(p)),
{
    reveal_with_fuel(override_map, 3);
    assert(pairs.push(p).push(q).drop_last() =~= pairs.push(p));
    assert(pairs.push(q).push(p).drop_last() =~= pairs.push(q));
    assert(pairs.push(p).drop_last() =~= pairs);
    assert(pairs.push(q).drop_last() =~= pairs);
    assert(override_map(pairs.push(p).push(q)) =~= override_map(pairs.push(q).push(p)));
}

/// Of presets for one kind the last counts, and a kind that is not given has none.
pub proof fn law_last_preset_counts(pairs: Seq<(String, String)>, kind: Seq<char>, k: int)
    ensures
        0 <= k < pairs.len() && pairs[k].0@ == kind && (forall|j: int|
            k < j < pairs.len() ==> (#[trigger] pairs[j]).0@ != kind) ==> override_map(
            pairs,
        ).contains_key(kind) && override_map(pairs)[kind] == pairs[k].1@,
        (forall|j: int| 0 <= j < pairs.len() ==> (#[trigger] pairs[j]).0@ != kind)
            ==> !override_map(pairs).contains_key(kind),
    decreases pairs.len(),
{
    if pairs.len() > 0 {
        let front = pairs.drop_last();
        law_last_preset_counts(front, kind, k);
        if 0 <= k < front.len() && (forall|j: int|
            k < j < pairs.len() ==> (#[trigger] pairs[j]).0@ != kind) {
            assert(pairs[pairs.len() - 1].0@ != kind);
            assert(front[k] == pairs[k]);
            assert forall|j: int| k < j < front.len() implies (#[trigger] front[j]).0@ != kind by {
                assert(front[j] == pairs[j]);
            }
        }
        if forall|j: int| 0 <= j < pairs.len() ==> (#[trigger] pairs[j]).0@ != kind {
            assert(pairs[pairs.len() - 1].0@ != kind);
            assert forall|j: int| 0 <= j < front.len() implies (#[trigger] front[j]).0@ != kind by {
                assert(front[j] == pairs[j]);
            }
        }
    }
}

/// A policy comes down to all of its settings: presets, model, provider and parsers
/// in order.
pub proof fn law_policies_come_down_to_all_settings(
    a: IndexingPolicyConfig,
    b: IndexingPolicyConfig,
)
    requires
        policy_json(policy_view(a)) == policy_json(policy_view(b)),
    ensures
        a.embedding.model@ == b.embedding.model@,
        a.embedding.provider@ == b.embedding.provider@,
        a.parsers@.len() == b.parsers@.len(),
        forall|i: int|
            0 <= i < a.parsers@.len() ==> (#[trigger] a.parsers@[i])@ == b.parsers@[i]@,
        override_map(a.chunking.preset_overrides@) == override_map(b.chunking.preset_overrides@),
{
    law_policy_form_is_faithful(policy_view(a), policy_view(b));
    let x = texts(a.parsers@);
    let y = texts(b.parsers@);
    assert(x == y);
    assert(x.len() == a.parsers@.len());
    assert(y.len() == b.parsers@.len());
    assert forall|i: int| 0 <= i < a.parsers@.len() implies (#[trigger] a.parsers@[i])@
        == b.parsers@[i]@ by {
        assert(x[i] == a.parsers@[i]@);
        assert(y[i] == b.parsers@[i]@);
    }
}

} // verus!
