//! The published schema of the configuration file.
//!
//! One document dispatches on the `version` of a file to the schema of that
//! version. Schemas of versions live side by side among the definitions, so the
//! names of each are prefixed.

use vstd::prelude::*;
use vstd::string::*;

use crate::json::{
    first_members, lemma_first_members, member, members, no_members, put, Json, JsonView,
};
use crate::text::{chars_of, occurs_at, same_text, stands_at, text_of};

verus! {

/// The address at which the schema is published.
pub const SCHEMA_URL: &'static str =
    "https://raw.githubusercontent.com/dokterbob/localdb/main/schema/config.schema.json";

/// A reference with the name it refers to prefixed; any other text as it is.
pub open spec fn rewritten_ref(text: Seq<char>, prefix: Seq<char>) -> Seq<char> {
    if occurs_at(text, "#/$defs/"@, 0) {
        "#/$defs/"@ + prefix + "_"@ + text.subrange(8, text.len() as int)
    } else {
        text
    }
}

/// A schema with every reference in it rewritten.
pub open spec fn rewritten(j: JsonView, prefix: Seq<char>) -> JsonView
    decreases j,
{
    match j {
        JsonView::Text(t) => JsonView::Text(rewritten_ref(t, prefix)),
        JsonView::Array(a) => JsonView::Array(
            Seq::new(
                a.len(),
                |i: int|
                    if 0 <= i < a.len() {
                        rewritten(a[i], prefix)
                    } else {
                        JsonView::Null
                    },
            ),
        ),
        JsonView::Object(o) => JsonView::Object(
            Map::new(
                |k: Seq<char>| o.contains_key(k),
                |k: Seq<char>|
                    if o.contains_key(k) {
                        rewritten(o[k], prefix)
                    } else {
                        JsonView::Null
                    },
            ),
        ),
        other => other,
    }
}

/// The members of an object with every reference in them rewritten.
pub open spec fn rewritten_members(m: Map<Seq<char>, JsonView>, prefix: Seq<char>) -> Map<
    Seq<char>,
    JsonView,
> {
    Map::new(|k: Seq<char>| m.contains_key(k), |k: Seq<char>| rewritten(m[k], prefix))
}

fn rewrite_ref(text: String, prefix: &str) -> (r: String)
    ensures
        r@ == rewritten_ref(text@, prefix@),
{
    let chars = chars_of(text.as_str());
    proof {
        reveal_strlit("#/$defs/");
    }
    if stands_at(chars.as_slice(), "#/$defs/", 0) {
        let rest = text_of(chars.as_slice(), 8, chars.len());
        let mut out = "#/$defs/".to_owned();
        out.append(prefix);
        out.append("_");
        out.append(rest.as_str());
        out
    } else {
        text
    }
}

/// A schema with every reference in it rewritten.
pub fn rewrite_defs_refs(value: Json, prefix: &str) -> (r: Json)
    ensures
        r@ == rewritten(value@, prefix@),
    decreases value,
{
    match value {
        Json::Text(t) => Json::Text(rewrite_ref(t, prefix)),
        Json::Array(a) => {
            let ghost all = a@;
            let mut out: Vec<Json> = Vec::new();
            for x in it: a
                invariant
                    it.seq() == all,
                    all == a@,
                    value == Json::Array(a),
                    out@.len() == it.index(),
                    forall|k: int|
                        0 <= k < out@.len() ==> (#[trigger] out@[k])@ == rewritten(
                            all[k]@,
                            prefix@,
                        ),
            {
                proof {
                    assert(value->Array_0 == a);
                    assert(decreases_to!(value => value->Array_0));
                    assert(decreases_to!(a => a[it.index()]));
                }
                let y = rewrite_defs_refs(x, prefix);
                out.push(y);
            }
            let r = Json::Array(out);
            proof {
                assert(r@->Array_0 =~= rewritten(value@, prefix@)->Array_0);
            }
            r
        },
        Json::Object(o) => {
            let ghost all = o@;
            let mut out = no_members();
            proof {
                assert(members(out) =~= rewritten_members(first_members(all, 0), prefix@));
            }
            for x in it: o
                invariant
                    it.seq() == all,
                    all == o@,
                    value == Json::Object(o),
                    members(out) == rewritten_members(
                        first_members(all, it.index() as int),
                        prefix@,
                    ),
            {
                let ghost before = first_members(all, it.index() as int);
                proof {
                    assert(value->Object_0 == o);
                    assert(decreases_to!(value => value->Object_0));
                    assert(decreases_to!(o => o[it.index()]));
                    assert(decreases_to!(o[it.index()] => o[it.index()].1));
                }
                let y = rewrite_defs_refs(x.1, prefix);
                put(&mut out, x.0.as_str(), y);
                proof {
                    assert(rewritten_members(before, prefix@).insert(
                        x.0@,
                        rewritten((x.1)@, prefix@),
                    ) =~= rewritten_members(before.insert(x.0@, (x.1)@), prefix@));
                }
            }
            let r = Json::Object(out);
            proof {
                lemma_first_members(o);
                assert(r@->Object_0 =~= rewritten(value@, prefix@)->Object_0);
            }
            r
        },
        other => other,
    }
}

// ---------------------------------------------------------------------------
// Definitions of one version
// ---------------------------------------------------------------------------

/// The members of a schema without those that only a document of its own has.
pub open spec fn without_meta(m: Map<Seq<char>, JsonView>) -> Map<Seq<char>, JsonView> {
    m.remove("$defs"@).remove("$schema"@).remove("$id"@)
}

/// The definitions of a schema.
pub open spec fn definitions(m: Map<Seq<char>, JsonView>) -> Map<Seq<char>, JsonView> {
    if m.contains_key("$defs"@) && m["$defs"@] is Object {
        m["$defs"@]->Object_0
    } else {
        Map::empty()
    }
}

/// Whether `key` is a prefixed name.
pub open spec fn is_prefixed(key: Seq<char>, prefix: Seq<char>) -> bool {
    key.len() > prefix.len() && key.take(prefix.len() as int) == prefix && key[prefix.len() as int]
        == '_'
}

/// The name behind a prefix.
pub open spec fn unprefixed(key: Seq<char>, prefix: Seq<char>) -> Seq<char> {
    key.subrange(prefix.len() as int + 1, key.len() as int)
}

/// The definitions `defs` under prefixed names, with every reference rewritten.
pub open spec fn prefixed_definitions(defs: Map<Seq<char>, JsonView>, prefix: Seq<char>) -> Map<
    Seq<char>,
    JsonView,
> {
    Map::new(
        |k: Seq<char>| is_prefixed(k, prefix) && defs.contains_key(unprefixed(k, prefix)),
        |k: Seq<char>| rewritten(defs[unprefixed(k, prefix)], prefix),
    )
}

/// The definitions that a schema contributes: the schema itself under the
/// prefix, and its own definitions under prefixed names.
pub open spec fn subschema(root: Map<Seq<char>, JsonView>, prefix: Seq<char>) -> Map<
    Seq<char>,
    JsonView,
> {
    prefixed_definitions(definitions(root), prefix).insert(
        prefix,
        rewritten(JsonView::Object(without_meta(root)), prefix),
    )
}

fn is_meta(key: &str) -> (r: bool)
    ensures
        r == (key@ == "$defs"@ || key@ == "$schema"@ || key@ == "$id"@),
{
    same_text(key, "$defs") || same_text(key, "$schema") || same_text(key, "$id")
}

proof fn lemma_prefixed_name(prefix: Seq<char>, name: Seq<char>)
    ensures
        is_prefixed(prefix + "_"@ + name, prefix),
        unprefixed(prefix + "_"@ + name, prefix) == name,
{
    reveal_strlit("_");
    let key = prefix + "_"@ + name;
    assert(key.take(prefix.len() as int) =~= prefix);
    assert(unprefixed(key, prefix) =~= name);
}

proof fn lemma_prefixed_insert(
    defs: Map<Seq<char>, JsonView>,
    prefix: Seq<char>,
    name: Seq<char>,
    value: JsonView,
)
    ensures
        prefixed_definitions(defs.insert(name, value), prefix) == prefixed_definitions(
            defs,
            prefix,
        ).insert(prefix + "_"@ + name, rewritten(value, prefix)),
{
    lemma_prefixed_name(prefix, name);
    let key = prefix + "_"@ + name;
    let a = prefixed_definitions(defs.insert(name, value), prefix);
    let b = prefixed_definitions(defs, prefix).insert(key, rewritten(value, prefix));
    assert forall|k: Seq<char>|
        #![trigger a.dom().contains(k)]
        #![trigger b.dom().contains(k)]
        #![trigger a[k]]
        #![trigger b[k]]
        a.dom().contains(k) == b.dom().contains(k) && (b.dom().contains(k) ==> a[k] == b[k]) by {
        if is_prefixed(k, prefix) && unprefixed(k, prefix) == name {
            reveal_strlit("_");
            assert(k =~= key);
        }
    }
    assert(a =~= b);
}

/// The definitions that the schema `root` contributes under `prefix`.
pub fn versioned_subschema(root: Json, prefix: &str) -> (r: Vec<(String, Json)>)
    requires
        root@ is Object,
    ensures
        members(r) == subschema(root@->Object_0, prefix@),
{
    let ghost whole = root@->Object_0;
    let mut out = no_members();
    match root {
        Json::Object(o) => {
            let ghost all = o@;
            let mut rest = no_members();
            let mut defs: Option<Json> = None;
            proof {
                assert(members(rest) =~= without_meta(first_members(all, 0)));
            }
            for x in it: o
                invariant
                    it.seq() == all,
                    members(rest) == without_meta(first_members(all, it.index() as int)),
                    match defs {
                        Some(d) => first_members(all, it.index() as int).contains_key("$defs"@)
                            && first_members(all, it.index() as int)["$defs"@] == d@,
                        None => !first_members(all, it.index() as int).contains_key("$defs"@),
                    },
            {
                let ghost before = first_members(all, it.index() as int);
                let (key, value) = x;
                if !is_meta(key.as_str()) {
                    put(&mut rest, key.as_str(), value);
                    proof {
                        assert(without_meta(before).insert(key@, value@) =~= without_meta(
                            before.insert(key@, value@),
                        ));
                    }
                } else {
                    proof {
                        assert(without_meta(before) =~= without_meta(
                            before.insert(key@, value@),
                        ));
                    }
                    if same_text(key.as_str(), "$defs") {
                        defs = Some(value);
                    }
                }
            }
            proof {
                lemma_first_members(o);
                assert(first_members(all, all.len() as int) == whole);
                assert(members(out) =~= prefixed_definitions(Map::empty(), prefix@));
            }
            if let Some(d) = defs {
                match d {
                    Json::Object(nested) => {
                        let ghost inner = nested@;
                        for x in it: nested
                            invariant
                                it.seq() == inner,
                                members(out) == prefixed_definitions(
                                    first_members(inner, it.index() as int),
                                    prefix@,
                                ),
                        {
                            let ghost before = first_members(inner, it.index() as int);
                            let mut name = prefix.to_owned();
                            name.append("_");
                            name.append(x.0.as_str());
                            let y = rewrite_defs_refs(x.1, prefix);
                            put(&mut out, name.as_str(), y);
                            proof {
                                lemma_prefixed_insert(before, prefix@, x.0@, (x.1)@);
                            }
                        }
                        proof {
                            lemma_first_members(nested);
                        }
                    },
                    _ => {},
                }
            }
            let body = rewrite_defs_refs(Json::Object(rest), prefix);
            put(&mut out, prefix, body);
        },
        _ => {},
    }
    out
}

// ---------------------------------------------------------------------------
// The router
// ---------------------------------------------------------------------------

/// An object with one member.
pub open spec fn single(key: Seq<char>, value: JsonView) -> JsonView {
    JsonView::Object(Map::<Seq<char>, JsonView>::empty().insert(key, value))
}

/// The list of the one key that every configuration has.
pub open spec fn required_keys() -> JsonView {
    JsonView::Array(seq![JsonView::Text("version"@)])
}

/// The published schema: version 1 goes to the definition `v1`, and any other
/// version is refused.
pub open spec fn router(defs: Map<Seq<char>, JsonView>) -> JsonView {
    JsonView::Object(
        Map::<Seq<char>, JsonView>::empty().insert(
            "$schema"@,
            JsonView::Text("https://json-schema.org/draft/2020-12/schema"@),
        ).insert("$id"@, JsonView::Text(SCHEMA_URL@)).insert(
            "title"@,
            JsonView::Text("localdb configuration"@),
        ).insert(
            "description"@,
            JsonView::Text(
                "config.yaml for localdb. Dispatches on the top-level `version` field to a per-version sub-schema; see specs/03-config.md."@,
            ),
        ).insert("type"@, JsonView::Text("object"@)).insert("required"@, required_keys()).insert(
            "properties"@,
            single(
                "version"@,
                JsonView::Object(
                    Map::<Seq<char>, JsonView>::empty().insert(
                        "type"@,
                        JsonView::Text("integer"@),
                    ).insert(
                        "description"@,
                        JsonView::Text(
                            "Config schema version. Currently only 1 is supported."@,
                        ),
                    ),
                ),
            ),
        ).insert(
            "if"@,
            JsonView::Object(
                Map::<Seq<char>, JsonView>::empty().insert(
                    "properties"@,
                    single("version"@, single("const"@, JsonView::Integer(1))),
                ).insert("required"@, required_keys()),
            ),
        ).insert("then"@, single("$ref"@, JsonView::Text("#/$defs/v1"@))).insert(
            "else"@,
            JsonView::Bool(false),
        ).insert("$defs"@, JsonView::Object(defs)),
    )
}

fn text_value(s: &str) -> (r: Json)
    ensures
        r@ == JsonView::Text(s@),
{
    Json::Text(s.to_owned())
}

fn single_member(key: &str, value: Json) -> (r: Json)
    ensures
        r@ == single(key@, value@),
{
    let mut pairs = no_members();
    put(&mut pairs, key, value);
    Json::Object(pairs)
}

fn required_list() -> (r: Json)
    ensures
        r@ == required_keys(),
{
    let mut out: Vec<Json> = Vec::new();
    out.push(text_value("version"));
    let r = Json::Array(out);
    proof {
        assert(r@->Array_0 =~= required_keys()->Array_0);
    }
    r
}

/// The published schema, from the schema of the configuration of version 1.
pub fn generate_router_schema(v1: Json) -> (r: Json)
    requires
        v1@ is Object,
    ensures
        r@ == router(subschema(v1@->Object_0, "v1"@)),
{
    let defs = versioned_subschema(v1, "v1");
    let mut version = no_members();
    put(&mut version, "type", text_value("integer"));
    put(
        &mut version,
        "description",
        text_value("Config schema version. Currently only 1 is supported."),
    );
    let mut condition = no_members();
    let one = single_member("const", Json::Unsigned(1));
    put(&mut condition, "properties", single_member("version", one));
    put(&mut condition, "required", required_list());
    let mut root = no_members();
    put(&mut root, "$schema", text_value("https://json-schema.org/draft/2020-12/schema"));
    put(&mut root, "$id", text_value(SCHEMA_URL));
    put(&mut root, "title", text_value("localdb configuration"));
    put(
        &mut root,
        "description",
        text_value(
            "config.yaml for localdb. Dispatches on the top-level `version` field to a per-version sub-schema; see specs/03-config.md.",
        ),
    );
    put(&mut root, "type", text_value("object"));
    put(&mut root, "required", required_list());
    put(&mut root, "properties", single_member("version", Json::Object(version)));
    put(&mut root, "if", Json::Object(condition));
    put(&mut root, "then", single_member("$ref", text_value("#/$defs/v1")));
    put(&mut root, "else", Json::Bool(false));
    put(&mut root, "$defs", Json::Object(defs));
    Json::Object(root)
}

// ---------------------------------------------------------------------------
// Laws
// ---------------------------------------------------------------------------

/// A reference to a definition still leads to it: the rewritten reference names
/// the key under which the definition is found, rewritten itself.
pub proof fn law_references_resolve(
    root: Map<Seq<char>, JsonView>,
    prefix: Seq<char>,
    name: Seq<char>,
)
    requires
        definitions(root).contains_key(name),
    ensures
        rewritten_ref("#/$defs/"@ + name, prefix) == "#/$defs/"@ + (prefix + "_"@ + name),
        subschema(root, prefix).contains_key(prefix + "_"@ + name),
        subschema(root, prefix)[prefix + "_"@ + name] == rewritten(
            definitions(root)[name],
            prefix,
        ),
{
    reveal_strlit("#/$defs/");
    lemma_prefixed_name(prefix, name);
    let text = "#/$defs/"@ + name;
    assert(text.subrange(0, 8) =~= "#/$defs/"@);
    assert(text.subrange(8, text.len() as int) =~= name);
    assert("#/$defs/"@ + prefix + "_"@ + name =~= "#/$defs/"@ + (prefix + "_"@ + name));
    let key = prefix + "_"@ + name;
    assert(key.len() > prefix.len()) by {
        reveal_strlit("_");
    }
}

/// A property that merely has the name of one of the members that a document of
/// its own has, such as `$schema`, stays: only members beside it are taken out.
pub proof fn law_properties_are_kept(root: Map<Seq<char>, JsonView>, prefix: Seq<char>)
    requires
        root.contains_key("properties"@),
    ensures
        subschema(root, prefix)[prefix] is Object,
        subschema(root, prefix)[prefix]->Object_0.contains_key("properties"@),
        subschema(root, prefix)[prefix]->Object_0["properties"@] == rewritten(
            root["properties"@],
            prefix,
        ),
{
    reveal_strlit("properties");
    reveal_strlit("$defs");
    reveal_strlit("$schema");
    reveal_strlit("$id");
    assert("properties"@.len() == 10);
}

/// Rewriting changes references and nothing else: what a schema holds stays where
/// it is, at any depth.
pub proof fn law_only_references_change(j: JsonView, prefix: Seq<char>)
    ensures
        !(j is Text || j is Array || j is Object) ==> rewritten(j, prefix) == j,
        j matches JsonView::Text(t) ==> rewritten(j, prefix) == JsonView::Text(
            rewritten_ref(t, prefix),
        ),
        j matches JsonView::Array(a) ==> (rewritten(j, prefix) matches JsonView::Array(b) && b.len()
            == a.len() && forall|i: int|
            0 <= i < a.len() ==> #[trigger] b[i] == rewritten(a[i], prefix)),
        j matches JsonView::Object(o) ==> (rewritten(j, prefix) matches JsonView::Object(q)
            && q.dom() == o.dom() && forall|k: Seq<char>| #[trigger]
            o.contains_key(k) ==> q[k] == rewritten(o[k], prefix)),
{
    if let JsonView::Object(o) = j {
        assert(rewritten(j, prefix)->Object_0.dom() =~= o.dom());
    }
}

/// A text that refers to no definition stays as it is.
pub proof fn law_other_texts_stay(t: Seq<char>, prefix: Seq<char>)
    requires
        t.len() < 8 || t.take(8) != "#/$defs/"@,
    ensures
        rewritten_ref(t, prefix) == t,
{
    reveal_strlit("#/$defs/");
    if t.len() >= 8 {
        assert(t.subrange(0, 8) =~= t.take(8));
    }
}

/// The schema itself keeps all its members but the three that only a document of
/// its own has.
pub proof fn law_members_are_kept(
    root: Map<Seq<char>, JsonView>,
    prefix: Seq<char>,
    key: Seq<char>,
)
    ensures
        subschema(root, prefix).contains_key(prefix),
        subschema(root, prefix)[prefix] is Object,
        subschema(root, prefix)[prefix]->Object_0.contains_key(key) <==> root.contains_key(key)
            && key != "$defs"@ && key != "$schema"@ && key != "$id"@,
        subschema(root, prefix)[prefix]->Object_0.contains_key(key) ==> subschema(
            root,
            prefix,
        )[prefix]->Object_0[key] == rewritten(root[key], prefix),
{
}

/// A configuration of version 1 is held to the definition `v1`, one of any other
/// version or of none is refused, and the definitions are at hand.
pub proof fn law_version_decides(defs: Map<Seq<char>, JsonView>)
    ensures
        member(router(defs), "required"@) == Some(JsonView::Array(seq![JsonView::Text("version"@)])),
        member(router(defs), "else"@) == Some(JsonView::Bool(false)),
        member(router(defs), "$defs"@) == Some(JsonView::Object(defs)),
        member(router(defs), "then"@) matches Some(then) && member(then, "$ref"@) == Some(
            JsonView::Text("#/$defs/v1"@),
        ),
        member(router(defs), "if"@) matches Some(condition) && member(condition, "required"@)
            == Some(JsonView::Array(seq![JsonView::Text("version"@)])) && (member(
            condition,
            "properties"@,
        ) matches Some(properties) && (member(properties, "version"@) matches Some(version)
            && member(version, "const"@) == Some(JsonView::Integer(1)))),
        member(router(defs), "$id"@) == Some(JsonView::Text(SCHEMA_URL@)),
        member(router(defs), "type"@) == Some(JsonView::Text("object"@)),
{
    reveal_strlit("$schema");
    reveal_strlit("$id");
    reveal_strlit("title");
    reveal_strlit("description");
    reveal_strlit("type");
    reveal_strlit("required");
    reveal_strlit("properties");
    reveal_strlit("if");
    reveal_strlit("then");
    reveal_strlit("else");
    reveal_strlit("$defs");
    assert("$schema"@.len() == 7 && "$id"@.len() == 3 && "title"@.len() == 5);
    assert("description"@.len() == 11 && "type"@.len() == 4 && "required"@.len() == 8);
    assert("properties"@.len() == 10 && "if"@.len() == 2 && "then"@.len() == 4);
    assert("else"@.len() == 4 && "$defs"@.len() == 5);
    assert("$defs"@[0] == '$' && "title"@[0] == 't');
    assert("then"@[0] == 't' && "else"@[0] == 'e' && "type"@[1] == 'y' && "then"@[1] == 'h');
}

/// Each definition of a schema is kept under its own name behind the prefix, and
/// nothing else is added.
pub proof fn law_definitions_are_kept(
    root: Map<Seq<char>, JsonView>,
    defs: Map<Seq<char>, JsonView>,
    prefix: Seq<char>,
    name: Seq<char>,
)
    requires
        root.contains_key("$defs"@),
        root["$defs"@] == JsonView::Object(defs),
    ensures
        subschema(root, prefix).contains_key(prefix + "_"@ + name) <==> defs.contains_key(name),
        defs.contains_key(name) ==> subschema(root, prefix)[prefix + "_"@ + name] == rewritten(
            defs[name],
            prefix,
        ),
        name != prefix && subschema(root, prefix).contains_key(name) ==> exists|d: Seq<char>| #[trigger]
            defs.contains_key(d) && name == prefix + "_"@ + d,
{
    lemma_prefixed_name(prefix, name);
    reveal_strlit("_");
    assert((prefix + "_"@ + name).len() > prefix.len());
    if name != prefix && subschema(root, prefix).contains_key(name) {
        let d = unprefixed(name, prefix);
        assert(defs.contains_key(d));
        assert(name =~= name.take(prefix.len() as int) + "_"@ + d);
    }
}

} // verus!
