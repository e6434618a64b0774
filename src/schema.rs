//! The schema transformer: rewrites an MCP tool's JSON Schema into the form
//! the LLM provider's tool-use API accepts.

use vstd::prelude::*;

use crate::json::{entry_value, jstr, lemma_view_entries, lemma_view_items, member, view_entries, view_items, copy_json, Json, JsonV};
use crate::provider::AnthropicProvider;
use crate::text::{contains_text_of, copy_str, has_prefix, occurs_in, str_eq};

verus! {

broadcast use {vstd::std_specs::vec::group_vec_axioms, vstd::seq::group_seq_axioms};

pub type Entries = Seq<(Seq<char>, JsonV)>;

/// The index of the first entry named `k`, or -1.
pub open spec fn first_index(es: Entries, k: Seq<char>) -> int
    decreases es.len(),
{
    if es.len() == 0 {
        -1
    } else if es[0].0 == k {
        0
    } else {
        let r = first_index(es.drop_first(), k);
        if r < 0 { -1 } else { r + 1 }
    }
}

/// `es` with member `k` set to `v`: the first entry named `k` is replaced,
/// or the member is appended.
pub open spec fn put(es: Entries, k: Seq<char>, v: JsonV) -> Entries {
    let i = first_index(es, k);
    if i >= 0 { es.update(i, (k, v)) } else { es.push((k, v)) }
}

pub proof fn lemma_first_index(es: Entries, k: Seq<char>)
    ensures
        -1 <= first_index(es, k) < es.len(),
        first_index(es, k) >= 0 ==> es[first_index(es, k)].0 == k,
        forall|j: int| 0 <= j < es.len() && (first_index(es, k) < 0 || j < first_index(es, k)) ==> (#[trigger] es[j]).0 != k,
        entry_value(es, k) == if first_index(es, k) >= 0 { Some(es[first_index(es, k)].1) } else { None::<JsonV> },
    decreases es.len(),
{
    if es.len() > 0 {
        lemma_first_index(es.drop_first(), k);
        if es[0].0 != k {
            assert forall|j: int| 0 <= j < es.len() && (first_index(es, k) < 0 || j < first_index(es, k)) implies (#[trigger] es[j]).0 != k by {
                if j > 0 {
                    assert(es.drop_first()[j - 1] == es[j]);
                }
            }
        }
    }
}

/// The keywords the provider accepts (besides `default`).
pub open spec fn kept_keyword(k: Seq<char>) -> bool {
    k == "type"@ || k == "description"@ || k == "properties"@ || k == "required"@ || k == "items"@
        || k == "enum"@ || k == "const"@ || k == "minimum"@ || k == "maximum"@ || k == "minLength"@
        || k == "maxLength"@ || k == "pattern"@ || k == "format"@
}

pub open spec fn is_name_char(c: char) -> bool {
    ('a' <= c && c <= 'z') || ('A' <= c && c <= 'Z') || ('0' <= c && c <= '9') || c == '_' || c == '.' || c == '-'
}

/// A property name the provider accepts: `^[A-Za-z0-9_.-]{1,64}$`.
pub open spec fn valid_property_name(name: Seq<char>) -> bool {
    &&& 1 <= name.len() <= 64
    &&& forall|i: int| 0 <= i < name.len() ==> is_name_char(#[trigger] name[i])
}

/// The JSON type name of a value, as inferred from a `default`.
pub open spec fn kind_name(v: JsonV) -> Seq<char> {
    match v {
        JsonV::Str(_) => "string"@,
        JsonV::Int(_) => "integer"@,
        JsonV::Float(_) => "number"@,
        JsonV::Bool(_) => "boolean"@,
        JsonV::Array(_) => "array"@,
        JsonV::Object(_) => "object"@,
        JsonV::Null => "null"@,
    }
}

/// A schema value cleaned for the provider: objects keep the accepted
/// keywords (cleaned) and `default` (as is), and get a `type` inferred from
/// `default` when they have none; arrays are cleaned element by element.
pub open spec fn clean(v: JsonV) -> JsonV
    decreases v, 0nat,
{
    match v {
        JsonV::Object(es) => JsonV::Object(clean_object(es)),
        JsonV::Array(items) => JsonV::Array(clean_items(items)),
        _ => v,
    }
}

pub open spec fn clean_items(items: Seq<JsonV>) -> Seq<JsonV>
    decreases items, 1nat,
{
    if items.len() == 0 {
        Seq::empty()
    } else {
        clean_items(items.drop_last()).push(clean(items.last()))
    }
}

/// The kept members of an object, in order.
pub open spec fn clean_fold(es: Entries) -> Entries
    decreases es, 1nat,
{
    if es.len() == 0 {
        Seq::empty()
    } else {
        let acc = clean_fold(es.drop_last());
        let (k, v) = es.last();
        if kept_keyword(k) {
            put(acc, k, clean(v))
        } else if k == "default"@ {
            put(acc, k, v)
        } else {
            acc
        }
    }
}

pub open spec fn clean_object(es: Entries) -> Entries
    decreases es, 2nat,
{
    let acc = clean_fold(es);
    if entry_value(es, "default"@) is Some && entry_value(es, "type"@) is None {
        put(acc, "type"@, JsonV::Str(kind_name(entry_value(es, "default"@)->0)))
    } else {
        acc
    }
}

/// The properties of a schema with the names the provider rejects dropped.
pub open spec fn props_fold(es: Entries) -> Entries
    decreases es.len(),
{
    if es.len() == 0 {
        Seq::empty()
    } else {
        let acc = props_fold(es.drop_last());
        let (k, v) = es.last();
        if valid_property_name(k) { put(acc, k, clean(v)) } else { acc }
    }
}

pub open spec fn clean_properties(p: JsonV) -> JsonV {
    match p {
        JsonV::Object(es) => JsonV::Object(props_fold(es)),
        _ => p,
    }
}

/// How many `$ref` expansions may nest.
pub open spec fn ref_depth() -> nat {
    64
}

/// The definition that `path` names: `#/$defs/<name>` looked up in `defs`.
pub open spec fn ref_target(path: Seq<char>, defs: Option<JsonV>) -> Option<JsonV> {
    if "#/$defs/"@.is_prefix_of(path) && defs is Some {
        member(defs->0, path.skip(8))
    } else {
        None
    }
}

/// A schema with references of the form `#/$defs/<name>` inlined, at most
/// `fuel` expansions deep, and `$defs` and `$schema` dropped, also from the
/// inlined definitions. A reference that names no object, or one past the
/// depth limit, is left as it is.
pub open spec fn resolve(v: JsonV, defs: Option<JsonV>, fuel: nat) -> JsonV
    decreases fuel, v, 0nat,
{
    match v {
        JsonV::Object(es) => JsonV::Object(resolve_fold(es, defs, fuel)),
        JsonV::Array(items) => JsonV::Array(resolve_items(items, defs, fuel)),
        _ => v,
    }
}

pub open spec fn resolve_items(items: Seq<JsonV>, defs: Option<JsonV>, fuel: nat) -> Seq<JsonV>
    decreases fuel, items, 1nat,
{
    if items.len() == 0 {
        Seq::empty()
    } else {
        resolve_items(items.drop_last(), defs, fuel).push(resolve(items.last(), defs, fuel))
    }
}

pub open spec fn resolve_fold(es: Entries, defs: Option<JsonV>, fuel: nat) -> Entries
    decreases fuel, es, 1nat,
{
    if es.len() == 0 {
        Seq::empty()
    } else {
        let acc = resolve_fold(es.drop_last(), defs, fuel);
        let (k, v) = es.last();
        if k == "$ref"@ {
            if fuel > 0 && v is Str && ref_target(v->Str_0, defs) is Some && ref_target(v->Str_0, defs)->0 is Object {
                merge_definition(acc, ref_target(v->Str_0, defs)->0->Object_0, defs, (fuel - 1) as nat)
            } else {
                put(acc, k, v)
            }
        } else if k == "$defs"@ || k == "$schema"@ {
            acc
        } else {
            put(acc, k, resolve(v, defs, fuel))
        }
    }
}

/// `acc` with the members of a definition (but `$ref`, `$defs` and
/// `$schema`) set, resolved.
pub open spec fn merge_definition(acc: Entries, def: Entries, defs: Option<JsonV>, fuel: nat) -> Entries
    decreases fuel, def, 1nat,
{
    if def.len() == 0 {
        acc
    } else {
        let base = merge_definition(acc, def.drop_last(), defs, fuel);
        let (k, v) = def.last();
        if k == "$ref"@ || k == "$defs"@ || k == "$schema"@ { base } else { put(base, k, resolve(v, defs, fuel)) }
    }
}

/// Whether a schema's root needs reference resolution: it has `$defs`, or
/// a member whose name contains `$ref`.
pub open spec fn needs_resolution(s: JsonV) -> bool {
    member(s, "$defs"@) is Some || root_mentions_ref(s)
}

/// Whether `s` is an object with a member whose name contains `$ref`.
pub open spec fn root_mentions_ref(s: JsonV) -> bool {
    s is Object && exists|i: int| 0 <= i < s->Object_0.len() && occurs_in("$ref"@, #[trigger] s->Object_0[i].0)
}

/// The provider form of an MCP tool schema: `type` (from the schema, else
/// `object`), then the cleaned `properties` and the `required` list of the
/// resolved schema, when present.
pub open spec fn transform(s: JsonV) -> JsonV {
    let t = match member(s, "type"@) {
        Some(t) => t,
        None => JsonV::Str("object"@),
    };
    let resolved = if needs_resolution(s) { resolve(s, member(s, "$defs"@), ref_depth()) } else { s };
    let es1: Entries = seq![("type"@, t)];
    let es2 = match member(resolved, "properties"@) {
        Some(p) => put(es1, "properties"@, clean_properties(p)),
        None => es1,
    };
    let es3 = match member(resolved, "required"@) {
        Some(r) => put(es2, "required"@, r),
        None => es2,
    };
    JsonV::Object(es3)
}

// ---------------------------------------------------------------------------
// The transformer is idempotent
// ---------------------------------------------------------------------------

pub open spec fn unique_keys(es: Entries) -> bool {
    forall|i: int, j: int| 0 <= i < j < es.len() ==> (#[trigger] es[i]).0 != (#[trigger] es[j]).0
}

pub open spec fn has_key(es: Entries, k: Seq<char>) -> bool {
    exists|i: int| 0 <= i < es.len() && #[trigger] es[i].0 == k
}

proof fn lemma_entry_value_has_key(es: Entries, k: Seq<char>)
    ensures
        entry_value(es, k) is Some <==> has_key(es, k),
{
    lemma_first_index(es, k);
    if has_key(es, k) {
        let i = choose|i: int| 0 <= i < es.len() && #[trigger] es[i].0 == k;
        assert(first_index(es, k) >= 0);
    }
}

proof fn lemma_put(es: Entries, k: Seq<char>, v: JsonV)
    ensures
        forall|x: Seq<char>| #[trigger] has_key(put(es, k, v), x) <==> (has_key(es, x) || x == k),
        unique_keys(es) ==> unique_keys(put(es, k, v)),
        !has_key(es, k) ==> put(es, k, v) == es.push((k, v)),
        has_key(put(es, k, v), k),
        forall|j: int| 0 <= j < put(es, k, v).len() ==> (#[trigger] put(es, k, v)[j]) == (k, v) || exists|i: int| 0 <= i < es.len() && es[i] == put(es, k, v)[j],
        es.len() > 0 && es[0].0 != k ==> put(es, k, v)[0] == es[0],
        put(es, k, v).len() >= 1,
{
    lemma_first_index(es, k);
    let r = put(es, k, v);
    let i = first_index(es, k);
    assert forall|x: Seq<char>| #[trigger] has_key(r, x) <==> (has_key(es, x) || x == k) by {
        if has_key(r, x) {
            let j = choose|j: int| 0 <= j < r.len() && #[trigger] r[j].0 == x;
            if x != k {
                assert(es[j].0 == x);
            }
        }
        if has_key(es, x) && x != k {
            let j = choose|j: int| 0 <= j < es.len() && #[trigger] es[j].0 == x;
            assert(r[j].0 == x);
        }
        if x == k {
            if i >= 0 { assert(r[i].0 == k); } else { assert(r[es.len() as int].0 == k); }
        }
    }
    if !has_key(es, k) {
        if i >= 0 {
            assert(es[i].0 == k);
        }
    }
    if unique_keys(es) {
        assert forall|a: int, b: int| 0 <= a < b < r.len() implies (#[trigger] r[a]).0 != (#[trigger] r[b]).0 by {
            if i >= 0 {
                if a == i { assert(es[b].0 != es[i].0); }
                else if b == i { assert(es[a].0 != es[i].0); }
                else { assert(es[a].0 != es[b].0); }
            } else {
                if b == es.len() {
                    assert(es[a].0 != k);
                } else {
                    assert(es[a].0 != es[b].0);
                }
            }
        }
    }
    assert forall|j: int| 0 <= j < r.len() implies (#[trigger] r[j]) == (k, v) || exists|i2: int| 0 <= i2 < es.len() && es[i2] == r[j] by {
        if r[j] != (k, v) {
            assert(es[j] == r[j]);
        }
    }
    if i >= 0 {
        assert(r[i] == (k, v));
    } else {
        assert(r[es.len() as int] == (k, v));
    }
}

/// Literal facts about the keywords involved.
proof fn lemma_keywords()
    ensures
        !kept_keyword("default"@),
        kept_keyword("type"@),
        "default"@ != "type"@,
        "properties"@ != "type"@,
        "required"@ != "type"@,
        "required"@ != "properties"@,
        "$defs"@ != "type"@,
        "$defs"@ != "properties"@,
        "$defs"@ != "required"@,
        !occurs_in("$ref"@, "type"@),
        !occurs_in("$ref"@, "properties"@),
        !occurs_in("$ref"@, "required"@),
{
    reveal_strlit("default");
    reveal_strlit("type");
    reveal_strlit("description");
    reveal_strlit("properties");
    reveal_strlit("required");
    reveal_strlit("items");
    reveal_strlit("enum");
    reveal_strlit("const");
    reveal_strlit("minimum");
    reveal_strlit("maximum");
    reveal_strlit("minLength");
    reveal_strlit("maxLength");
    reveal_strlit("pattern");
    reveal_strlit("format");
    reveal_strlit("$defs");
    reveal_strlit("$ref");
    assert("default"@[0] != "type"@[0]);
    assert("default"@[2] != "description"@[2]);
    assert("default"@[0] != "properties"@[0]);
    assert("default"@[0] != "required"@[0]);
    assert("default"@[0] != "items"@[0]);
    assert("default"@[0] != "enum"@[0]);
    assert("default"@[0] != "const"@[0]);
    assert("default"@[0] != "minimum"@[0]);
    assert("default"@[0] != "maximum"@[0]);
    assert("default"@[0] != "minLength"@[0]);
    assert("default"@[0] != "maxLength"@[0]);
    assert("default"@[0] != "pattern"@[0]);
    assert("default"@[0] != "format"@[0]);
    assert("properties"@[0] != "type"@[0]);
    assert("required"@[0] != "type"@[0]);
    assert("required"@[0] != "properties"@[0]);
    assert("$defs"@[0] != "type"@[0]);
    assert("$defs"@[0] != "properties"@[0]);
    assert("$defs"@[0] != "required"@[0]);
    lemma_no_dollar("type"@);
    lemma_no_dollar("properties"@);
    lemma_no_dollar("required"@);
}

proof fn lemma_no_dollar(k: Seq<char>)
    requires
        forall|i: int| 0 <= i < k.len() ==> k[i] != '$',
    ensures
        !occurs_in("$ref"@, k),
{
    reveal_strlit("$ref");
    if occurs_in("$ref"@, k) {
        let i = choose|i: int| 0 <= i && i + "$ref"@.len() <= k.len() && #[trigger] k.subrange(i, i + "$ref"@.len()) == "$ref"@;
        assert(k.subrange(i, i + 4)[0] == k[i]);
    }
}

proof fn lemma_clean_items(items: Seq<JsonV>)
    ensures
        clean_items(items).len() == items.len(),
        forall|i: int| 0 <= i < items.len() ==> #[trigger] clean_items(items)[i] == clean(items[i]),
    decreases items.len(),
{
    if items.len() > 0 {
        lemma_clean_items(items.drop_last());
    }
}

/// An entry of a cleaned object: an accepted keyword with a clean value, or `default`.
pub open spec fn cleaned_entry(e: (Seq<char>, JsonV)) -> bool {
    (kept_keyword(e.0) && clean(e.1) == e.1) || e.0 == "default"@
}

pub open spec fn cleaned_entries(es: Entries) -> bool {
    &&& unique_keys(es)
    &&& forall|i: int| 0 <= i < es.len() ==> cleaned_entry(#[trigger] es[i])
}

/// Cleaning a cleaned value changes nothing.
pub proof fn lemma_clean_idempotent(v: JsonV)
    ensures
        clean(clean(v)) == clean(v),
    decreases v, 0nat,
{
    match v {
        JsonV::Object(es) => {
            lemma_clean_object_shape(es);
            lemma_clean_fold_fixed(clean_object(es));
            lemma_keywords();
            let out = clean_object(es);
            let acc = clean_fold(es);
            lemma_entry_value_has_key(out, "default"@);
            lemma_entry_value_has_key(out, "type"@);
            lemma_entry_value_has_key(es, "default"@);
            lemma_entry_value_has_key(es, "type"@);
            lemma_entry_value_has_key(acc, "default"@);
            lemma_entry_value_has_key(acc, "type"@);
            lemma_clean_fold_shape(es);
            if entry_value(es, "default"@) is Some && entry_value(es, "type"@) is None {
                lemma_put(acc, "type"@, JsonV::Str(kind_name(entry_value(es, "default"@)->0)));
                assert(has_key(out, "type"@));
                assert(entry_value(out, "type"@) is Some);
            } else {
                assert(out == acc);
                assert(!(entry_value(out, "default"@) is Some && entry_value(out, "type"@) is None));
            }
            assert(clean_fold(out) == out);
            assert(clean_object(out) == out);
        },
        JsonV::Array(items) => {
            lemma_clean_items(items);
            lemma_clean_items(clean_items(items));
            assert forall|i: int| 0 <= i < items.len() implies #[trigger] clean_items(clean_items(items))[i] == clean_items(items)[i] by {
                lemma_clean_idempotent(items[i]);
            }
            assert(clean_items(clean_items(items)) =~= clean_items(items));
        },
        _ => {},
    }
}

/// The members an object keeps: unique keywords with clean values, or
/// `default`; `default` and `type` are kept exactly when present.
proof fn lemma_clean_fold_shape(es: Entries)
    ensures
        cleaned_entries(clean_fold(es)),
        has_key(clean_fold(es), "default"@) <==> has_key(es, "default"@),
        has_key(clean_fold(es), "type"@) <==> has_key(es, "type"@),
    decreases es, 1nat,
{
    lemma_keywords();
    if es.len() > 0 {
        let init = es.drop_last();
        lemma_clean_fold_shape(init);
        let acc = clean_fold(init);
        let (k, v) = es.last();
        assert forall|x: Seq<char>| has_key(es, x) <==> (has_key(init, x) || x == k) by {
            if has_key(es, x) {
                let j = choose|j: int| 0 <= j < es.len() && #[trigger] es[j].0 == x;
                if j < init.len() { assert(init[j].0 == x); }
            }
            if has_key(init, x) {
                let j = choose|j: int| 0 <= j < init.len() && #[trigger] init[j].0 == x;
                assert(es[j].0 == x);
            }
            if x == k { assert(es[es.len() - 1].0 == x); }
        }
        if kept_keyword(k) {
            lemma_clean_idempotent(v);
            lemma_put(acc, k, clean(v));
        } else if k == "default"@ {
            lemma_put(acc, k, v);
        }
        let r = clean_fold(es);
        assert forall|i: int| 0 <= i < r.len() implies cleaned_entry(#[trigger] r[i]) by {
            if kept_keyword(k) {
                if r[i] != (k, clean(v)) {
                    let i2 = choose|i2: int| 0 <= i2 < acc.len() && acc[i2] == r[i];
                    assert(cleaned_entry(acc[i2]));
                }
            } else if k == "default"@ {
                if r[i] != (k, v) {
                    let i2 = choose|i2: int| 0 <= i2 < acc.len() && acc[i2] == r[i];
                    assert(cleaned_entry(acc[i2]));
                }
            }
        }
    }
}

proof fn lemma_clean_object_shape(es: Entries)
    ensures
        cleaned_entries(clean_object(es)),
    decreases es, 2nat,
{
    lemma_clean_fold_shape(es);
    lemma_keywords();
    let acc = clean_fold(es);
    if entry_value(es, "default"@) is Some && entry_value(es, "type"@) is None {
        let t = JsonV::Str(kind_name(entry_value(es, "default"@)->0));
        lemma_put(acc, "type"@, t);
        let r = put(acc, "type"@, t);
        assert forall|i: int| 0 <= i < r.len() implies cleaned_entry(#[trigger] r[i]) by {
            if r[i] != ("type"@, t) {
                let i2 = choose|i2: int| 0 <= i2 < acc.len() && acc[i2] == r[i];
                assert(cleaned_entry(acc[i2]));
            }
        }
    }
}

/// Cleaning the members of a cleaned object keeps them as they are.
proof fn lemma_clean_fold_fixed(es: Entries)
    requires
        cleaned_entries(es),
    ensures
        clean_fold(es) == es,
    decreases es.len(),
{
    lemma_keywords();
    if es.len() > 0 {
        let init = es.drop_last();
        assert(cleaned_entries(init)) by {
            assert forall|i: int| 0 <= i < init.len() implies cleaned_entry(#[trigger] init[i]) by {
                assert(init[i] == es[i]);
            }
            assert forall|a: int, b: int| 0 <= a < b < init.len() implies (#[trigger] init[a]).0 != (#[trigger] init[b]).0 by {
                assert(es[a].0 != es[b].0);
            }
        }
        lemma_clean_fold_fixed(init);
        let (k, v) = es.last();
        assert(cleaned_entry(es[es.len() - 1]));
        assert(!has_key(init, k)) by {
            if has_key(init, k) {
                let j = choose|j: int| 0 <= j < init.len() && #[trigger] init[j].0 == k;
                assert(es[j].0 != es[es.len() - 1].0);
            }
        }
        lemma_put(init, k, v);
        assert(init.push((k, v)) =~= es);
    }
}

/// The properties kept: unique valid names with clean values.
proof fn lemma_props_fold_shape(es: Entries)
    ensures
        unique_keys(props_fold(es)),
        forall|i: int| 0 <= i < props_fold(es).len() ==> valid_property_name((#[trigger] props_fold(es)[i]).0) && clean(props_fold(es)[i].1) == props_fold(es)[i].1,
    decreases es.len(),
{
    if es.len() > 0 {
        let init = es.drop_last();
        lemma_props_fold_shape(init);
        let acc = props_fold(init);
        let (k, v) = es.last();
        if valid_property_name(k) {
            lemma_clean_idempotent(v);
            lemma_put(acc, k, clean(v));
            let r = props_fold(es);
            assert forall|i: int| 0 <= i < r.len() implies valid_property_name((#[trigger] r[i]).0) && clean(r[i].1) == r[i].1 by {
                if r[i] != (k, clean(v)) {
                    let i2 = choose|i2: int| 0 <= i2 < acc.len() && acc[i2] == r[i];
                    assert(valid_property_name(acc[i2].0));
                }
            }
        }
    }
}

proof fn lemma_props_fold_fixed(es: Entries)
    requires
        unique_keys(es),
        forall|i: int| 0 <= i < es.len() ==> valid_property_name((#[trigger] es[i]).0) && clean(es[i].1) == es[i].1,
    ensures
        props_fold(es) == es,
    decreases es.len(),
{
    if es.len() > 0 {
        let init = es.drop_last();
        assert forall|a: int, b: int| 0 <= a < b < init.len() implies (#[trigger] init[a]).0 != (#[trigger] init[b]).0 by {
            assert(es[a].0 != es[b].0);
        }
        assert forall|i: int| 0 <= i < init.len() implies valid_property_name((#[trigger] init[i]).0) && clean(init[i].1) == init[i].1 by {
            assert(init[i] == es[i]);
        }
        lemma_props_fold_fixed(init);
        let (k, v) = es.last();
        assert(valid_property_name(es[es.len() - 1].0));
        assert(!has_key(init, k)) by {
            if has_key(init, k) {
                let j = choose|j: int| 0 <= j < init.len() && #[trigger] init[j].0 == k;
                assert(es[j].0 != es[es.len() - 1].0);
            }
        }
        lemma_put(init, k, v);
        assert(init.push((k, v)) =~= es);
    }
}

/// Cleaning properties twice is cleaning them once.
pub proof fn lemma_clean_properties_idempotent(p: JsonV)
    ensures
        clean_properties(clean_properties(p)) == clean_properties(p),
{
    if p is Object {
        lemma_props_fold_shape(p->Object_0);
        lemma_props_fold_fixed(props_fold(p->Object_0));
    }
}

/// The schema transformer is idempotent: transforming a transformed schema
/// gives it back unchanged.
pub proof fn lemma_transform_idempotent(s: JsonV)
    ensures
        transform(transform(s)) == transform(s),
{
    lemma_keywords();
    let t = match member(s, "type"@) {
        Some(t) => t,
        None => JsonV::Str("object"@),
    };
    let resolved = if needs_resolution(s) { resolve(s, member(s, "$defs"@), ref_depth()) } else { s };
    let es1: Entries = seq![("type"@, t)];
    let es2 = match member(resolved, "properties"@) {
        Some(p) => put(es1, "properties"@, clean_properties(p)),
        None => es1,
    };
    let es3 = match member(resolved, "required"@) {
        Some(r) => put(es2, "required"@, r),
        None => es2,
    };
    let out = JsonV::Object(es3);
    assert(transform(s) == out);
    // The members of the output are `type`, then `properties` and `required` when present.
    assert(!has_key(es1, "properties"@)) by {
        if has_key(es1, "properties"@) {
            let j = choose|j: int| 0 <= j < es1.len() && #[trigger] es1[j].0 == "properties"@;
            assert(j == 0);
        }
    }
    if let Some(p) = member(resolved, "properties"@) {
        lemma_put(es1, "properties"@, clean_properties(p));
        assert(es2 == es1.push(("properties"@, clean_properties(p))));
    }
    assert(!has_key(es2, "required"@)) by {
        if has_key(es2, "required"@) {
            let j = choose|j: int| 0 <= j < es2.len() && #[trigger] es2[j].0 == "required"@;
            assert(j == 0 || j == 1);
        }
    }
    if let Some(r) = member(resolved, "required"@) {
        lemma_put(es2, "required"@, r);
        assert(es3 == es2.push(("required"@, r)));
    }
    assert(es3[0] == ("type"@, t));
    assert(forall|j: int| 0 <= j < es3.len() ==> (#[trigger] es3[j]).0 == "type"@ || es3[j].0 == "properties"@ || es3[j].0 == "required"@);
    lemma_first_index(es3, "type"@);
    lemma_first_index(es3, "properties"@);
    lemma_first_index(es3, "required"@);
    lemma_first_index(es3, "$defs"@);
    assert(member(out, "type"@) == Some(t));
    assert(member(out, "$defs"@) is None) by {
        lemma_entry_value_has_key(es3, "$defs"@);
        if has_key(es3, "$defs"@) {
            let j = choose|j: int| 0 <= j < es3.len() && #[trigger] es3[j].0 == "$defs"@;
        }
    }
    assert(!needs_resolution(out)) by {
        if root_mentions_ref(out) {
            let i = choose|i: int| 0 <= i < es3.len() && occurs_in("$ref"@, #[trigger] es3[i].0);
        }
    }
    if let Some(p) = member(resolved, "properties"@) {
        assert(es3[1] == ("properties"@, clean_properties(p)));
        assert(member(out, "properties"@) == Some(clean_properties(p)));
        lemma_clean_properties_idempotent(p);
    } else {
        assert(member(out, "properties"@) is None) by {
            lemma_entry_value_has_key(es3, "properties"@);
            if has_key(es3, "properties"@) {
                let j = choose|j: int| 0 <= j < es3.len() && #[trigger] es3[j].0 == "properties"@;
            }
        }
    }
    if let Some(r) = member(resolved, "required"@) {
        assert(es3[es3.len() - 1] == ("required"@, r));
        assert(member(out, "required"@) == Some(r));
    } else {
        assert(member(out, "required"@) is None) by {
            lemma_entry_value_has_key(es3, "required"@);
            if has_key(es3, "required"@) {
                let j = choose|j: int| 0 <= j < es3.len() && #[trigger] es3[j].0 == "required"@;
            }
        }
    }
}

// ---------------------------------------------------------------------------
// The transformer
// ---------------------------------------------------------------------------

proof fn lemma_view_entries_take(s: Seq<(String, Json)>, i: int)
    requires
        0 <= i < s.len(),
    ensures
        view_entries(s).take(i + 1).drop_last() == view_entries(s).take(i),
        view_entries(s).take(i + 1).last() == (s[i].0@, s[i].1@),
{
    lemma_view_entries(s);
    assert(view_entries(s).take(i + 1).drop_last() =~= view_entries(s).take(i));
}

/// The index of the first member named `k`.
fn find_key(es: &Vec<(String, Json)>, k: &str) -> (r: Option<usize>)
    ensures
        r is Some ==> r->0 < es@.len() && first_index(view_entries(es@), k@) == r->0 as int,
        r is None ==> first_index(view_entries(es@), k@) == -1,
{
    proof {
        lemma_view_entries(es@);
        lemma_first_index(view_entries(es@), k@);
    }
    let ghost ves = view_entries(es@);
    let mut i: usize = 0;
    while i < es.len()
        invariant
            0 <= i <= es@.len(),
            ves == view_entries(es@),
            ves.len() == es@.len(),
            forall|j: int| 0 <= j < es@.len() ==> #[trigger] ves[j] == (es@[j].0@, es@[j].1@),
            forall|j: int| 0 <= j < i ==> (#[trigger] ves[j]).0 != k@,
            -1 <= first_index(ves, k@) < ves.len(),
            first_index(ves, k@) >= 0 ==> ves[first_index(ves, k@)].0 == k@,
            forall|j: int| 0 <= j < ves.len() && (first_index(ves, k@) < 0 || j < first_index(ves, k@)) ==> (#[trigger] ves[j]).0 != k@,
        decreases es@.len() - i,
    {
        if str_eq(es[i].0.as_str(), k) {
            assert(ves[i as int].0 == k@);
            return Some(i);
        }
        i = i + 1;
    }
    None
}

/// Sets member `k` to `v` (see [`put`]).
fn put_entry(es: &mut Vec<(String, Json)>, k: &str, v: Json)
    ensures
        view_entries(final(es)@) == put(view_entries(old(es)@), k@, v@),
{
    proof { lemma_view_entries(old(es)@); }
    let ghost before = view_entries(es@);
    match find_key(es, k) {
        Some(i) => {
            es.set(i, (copy_str(k), v));
            proof { lemma_view_entries(es@); }
            assert(view_entries(es@) =~= before.update(i as int, (k@, v@)));
        },
        None => {
            es.push((copy_str(k), v));
            proof { lemma_view_entries(es@); }
            assert(view_entries(es@) =~= before.push((k@, v@)));
        },
    }
}

fn kept_keyword_exec(k: &str) -> (r: bool)
    ensures
        r == kept_keyword(k@),
{
    str_eq(k, "type") || str_eq(k, "description") || str_eq(k, "properties") || str_eq(k, "required")
        || str_eq(k, "items") || str_eq(k, "enum") || str_eq(k, "const") || str_eq(k, "minimum")
        || str_eq(k, "maximum") || str_eq(k, "minLength") || str_eq(k, "maxLength") || str_eq(k, "pattern")
        || str_eq(k, "format")
}

fn kind_of(v: &Json) -> (r: &'static str)
    ensures
        r@ == kind_name(v@),
{
    match v {
        Json::Str(_) => "string",
        Json::Int(_) => "integer",
        Json::Float(_) => "number",
        Json::Bool(_) => "boolean",
        Json::Array(_) => "array",
        Json::Object(_) => "object",
        Json::Null => "null",
    }
}

impl AnthropicProvider {
    /// Whether `name` is a property name the provider accepts (see
    /// [`valid_property_name`]).
    pub fn is_valid_anthropic_property_name(&self, name: &str) -> (r: bool)
        ensures
            r == valid_property_name(name@),
    {
        let n = name.unicode_len();
        if n < 1 || n > 64 {
            return false;
        }
        let mut i: usize = 0;
        while i < n
            invariant
                n == name@.len(),
                0 <= i <= n,
                forall|j: int| 0 <= j < i ==> is_name_char(#[trigger] name@[j]),
            decreases n - i,
        {
            let c = name.get_char(i);
            if !(('a' <= c && c <= 'z') || ('A' <= c && c <= 'Z') || ('0' <= c && c <= '9') || c == '_' || c == '.' || c == '-') {
                return false;
            }
            i = i + 1;
        }
        true
    }

    /// A schema value cleaned for the provider (see [`clean`]).
    pub fn clean_schema_value_for_anthropic(&self, value: &Json) -> (r: Json)
        ensures
            r@ == clean(value@),
        decreases value,
    {
        match value {
            Json::Object(es) => {
                proof { lemma_view_entries(es@); }
                let ghost ves = view_entries(es@);
                let mut acc: Vec<(String, Json)> = Vec::new();
                proof { lemma_view_entries(acc@); }
                assert(ves.take(0) =~= Seq::<(Seq<char>, JsonV)>::empty());
                let mut i: usize = 0;
                while i < es.len()
                    invariant
                        0 <= i <= es@.len(),
                        ves == view_entries(es@),
                        ves.len() == es@.len(),
                        *value == Json::Object(*es),
                        view_entries(acc@) == clean_fold(ves.take(i as int)),
                    decreases es@.len() - i,
                {
                    proof {
                        lemma_view_entries_take(es@, i as int);
                        assert(decreases_to!(*value => value->Object_0));
                        assert(decreases_to!(value->Object_0 => value->Object_0@));
                        assert(decreases_to!(value->Object_0@ => value->Object_0@[i as int]));
                        assert(decreases_to!(value->Object_0@[i as int] => value->Object_0@[i as int].1));
                        reveal_strlit("default");
                    }
                    let k = es[i].0.as_str();
                    if kept_keyword_exec(k) {
                        let cleaned = self.clean_schema_value_for_anthropic(&es[i].1);
                        put_entry(&mut acc, k, cleaned);
                    } else if str_eq(k, "default") {
                        put_entry(&mut acc, k, copy_json(&es[i].1));
                    }
                    i = i + 1;
                }
                assert(ves.take(i as int) =~= ves);
                assert(value@ == JsonV::Object(ves));
                match (value.get("default"), value.get("type")) {
                    (Some(d), None) => {
                        put_entry(&mut acc, "type", jstr(kind_of(d)));
                    },
                    _ => {},
                }
                Json::Object(acc)
            },
            Json::Array(items) => {
                proof { lemma_view_items(items@); }
                let ghost vis = view_items(items@);
                let mut out: Vec<Json> = Vec::new();
                let mut i: usize = 0;
                while i < items.len()
                    invariant
                        0 <= i <= items@.len(),
                        vis == view_items(items@),
                        vis.len() == items@.len(),
                        forall|j: int| 0 <= j < items@.len() ==> #[trigger] vis[j] == items@[j]@,
                        *value == Json::Array(*items),
                        out@.len() == i,
                        forall|j: int| 0 <= j < i ==> (#[trigger] out@[j])@ == clean(vis[j]),
                    decreases items@.len() - i,
                {
                    proof {
                        assert(decreases_to!(*value => value->Array_0));
                        assert(decreases_to!(value->Array_0 => value->Array_0@));
                        assert(decreases_to!(value->Array_0@ => value->Array_0@[i as int]));
                    }
                    out.push(self.clean_schema_value_for_anthropic(&items[i]));
                    i = i + 1;
                }
                proof {
                    lemma_view_items(out@);
                    lemma_clean_items(vis);
                }
                assert(view_items(out@) =~= clean_items(vis));
                Json::Array(out)
            },
            _ => copy_json(value),
        }
    }

    /// Properties cleaned for the provider: names it rejects are dropped
    /// (see [`clean_properties`]).
    pub fn clean_properties_for_anthropic(&self, properties: &Json) -> (r: Json)
        ensures
            r@ == clean_properties(properties@),
    {
        match properties {
            Json::Object(es) => {
                proof { lemma_view_entries(es@); }
                let ghost ves = view_entries(es@);
                let mut acc: Vec<(String, Json)> = Vec::new();
                proof { lemma_view_entries(acc@); }
                assert(ves.take(0) =~= Seq::<(Seq<char>, JsonV)>::empty());
                let mut i: usize = 0;
                while i < es.len()
                    invariant
                        0 <= i <= es@.len(),
                        ves == view_entries(es@),
                        ves.len() == es@.len(),
                        view_entries(acc@) == props_fold(ves.take(i as int)),
                    decreases es@.len() - i,
                {
                    proof { lemma_view_entries_take(es@, i as int); }
                    let k = es[i].0.as_str();
                    if self.is_valid_anthropic_property_name(k) {
                        let cleaned = self.clean_schema_value_for_anthropic(&es[i].1);
                        put_entry(&mut acc, k, cleaned);
                    }
                    i = i + 1;
                }
                assert(ves.take(i as int) =~= ves);
                Json::Object(acc)
            },
            _ => copy_json(properties),
        }
    }
}

pub open spec fn defs_view(defs: Option<&Json>) -> Option<JsonV> {
    match defs {
        Some(d) => Some(d@),
        None => None,
    }
}

/// Whether a root object has a member whose name contains `$ref`.
fn root_has_ref(schema: &Json) -> (r: bool)
    ensures
        r == root_mentions_ref(schema@),
{
    match schema {
        Json::Object(es) => {
            proof { lemma_view_entries(es@); }
            let ghost ves = view_entries(es@);
            assert(schema@ == JsonV::Object(ves));
            let mut i: usize = 0;
            while i < es.len()
                invariant
                    0 <= i <= es@.len(),
                    ves == view_entries(es@),
                    schema@ == JsonV::Object(ves),
                    ves.len() == es@.len(),
                    forall|j: int| 0 <= j < es@.len() ==> #[trigger] ves[j] == (es@[j].0@, es@[j].1@),
                    forall|j: int| 0 <= j < i ==> !occurs_in("$ref"@, #[trigger] ves[j].0),
                decreases es@.len() - i,
            {
                if contains_text_of(es[i].0.as_str(), "$ref") {
                    assert(occurs_in("$ref"@, ves[i as int].0));
                    assert(schema@->Object_0[i as int].0 == ves[i as int].0);
                    return true;
                }
                i = i + 1;
            }
            false
        },
        _ => false,
    }
}

impl AnthropicProvider {
    /// The definition that a `#/$defs/<name>` reference names (see [`ref_target`]).
    pub fn resolve_ref_path(&self, ref_path: &str, defs: Option<&Json>) -> (r: Option<Json>)
        ensures
            r is Some == ref_target(ref_path@, defs_view(defs)) is Some,
            r is Some ==> r->0@ == ref_target(ref_path@, defs_view(defs))->0,
    {
        proof { reveal_strlit("#/$defs/"); }
        if has_prefix(ref_path, "#/$defs/") {
            match defs {
                Some(d) => {
                    let n = ref_path.unicode_len();
                    let name = ref_path.substring_char(8, n);
                    assert(name@ =~= ref_path@.skip(8));
                    match d.get(name) {
                        Some(found) => Some(copy_json(found)),
                        None => None,
                    }
                },
                None => None,
            }
        } else {
            None
        }
    }

    fn resolve_with(&self, value: &Json, defs: Option<&Json>, fuel: u32) -> (r: Json)
        ensures
            r@ == resolve(value@, defs_view(defs), fuel as nat),
        decreases fuel, value,
    {
        match value {
            Json::Object(es) => {
                proof { lemma_view_entries(es@); }
                let ghost ves = view_entries(es@);
                let mut acc: Vec<(String, Json)> = Vec::new();
                proof { lemma_view_entries(acc@); }
                assert(ves.take(0) =~= Seq::<(Seq<char>, JsonV)>::empty());
                let mut i: usize = 0;
                while i < es.len()
                    invariant
                        0 <= i <= es@.len(),
                        ves == view_entries(es@),
                        ves.len() == es@.len(),
                        *value == Json::Object(*es),
                        view_entries(acc@) == resolve_fold(ves.take(i as int), defs_view(defs), fuel as nat),
                    decreases es@.len() - i,
                {
                    proof {
                        lemma_view_entries_take(es@, i as int);
                        assert(decreases_to!(*value => value->Object_0));
                        assert(decreases_to!(value->Object_0 => value->Object_0@));
                        assert(decreases_to!(value->Object_0@ => value->Object_0@[i as int]));
                        assert(decreases_to!(value->Object_0@[i as int] => value->Object_0@[i as int].1));
                    }
                    let k = es[i].0.as_str();
                    if str_eq(k, "$ref") {
                        let target = if fuel > 0 {
                            match es[i].1.as_str() {
                                Some(path) => self.resolve_ref_path(path, defs),
                                None => None,
                            }
                        } else {
                            None
                        };
                        match target {
                            Some(Json::Object(def)) => {
                                self.merge_definition(&mut acc, &def, defs, fuel - 1);
                            },
                            _ => {
                                put_entry(&mut acc, k, copy_json(&es[i].1));
                            },
                        }
                    } else if !(str_eq(k, "$defs") || str_eq(k, "$schema")) {
                        let resolved = self.resolve_with(&es[i].1, defs, fuel);
                        put_entry(&mut acc, k, resolved);
                    }
                    i = i + 1;
                }
                assert(ves.take(i as int) =~= ves);
                Json::Object(acc)
            },
            Json::Array(items) => {
                proof { lemma_view_items(items@); }
                let ghost vis = view_items(items@);
                let mut out: Vec<Json> = Vec::new();
                let mut i: usize = 0;
                while i < items.len()
                    invariant
                        0 <= i <= items@.len(),
                        vis == view_items(items@),
                        vis.len() == items@.len(),
                        forall|j: int| 0 <= j < items@.len() ==> #[trigger] vis[j] == items@[j]@,
                        *value == Json::Array(*items),
                        out@.len() == i,
                        forall|j: int| 0 <= j < i ==> (#[trigger] out@[j])@ == resolve(vis[j], defs_view(defs), fuel as nat),
                    decreases items@.len() - i,
                {
                    proof {
                        assert(decreases_to!(*value => value->Array_0));
                        assert(decreases_to!(value->Array_0 => value->Array_0@));
                        assert(decreases_to!(value->Array_0@ => value->Array_0@[i as int]));
                    }
                    out.push(self.resolve_with(&items[i], defs, fuel));
                    i = i + 1;
                }
                proof {
                    lemma_view_items(out@);
                    lemma_resolve_items(vis, defs_view(defs), fuel as nat);
                }
                assert(view_items(out@) =~= resolve_items(vis, defs_view(defs), fuel as nat));
                Json::Array(out)
            },
            _ => copy_json(value),
        }
    }

    fn merge_definition(&self, acc: &mut Vec<(String, Json)>, def: &Vec<(String, Json)>, defs: Option<&Json>, fuel: u32)
        ensures
            view_entries(final(acc)@) == merge_definition(view_entries(old(acc)@), view_entries(def@), defs_view(defs), fuel as nat),
        decreases fuel, def,
    {
        proof { lemma_view_entries(def@); }
        let ghost vd = view_entries(def@);
        let ghost start = view_entries(acc@);
        assert(vd.take(0) =~= Seq::<(Seq<char>, JsonV)>::empty());
        let mut i: usize = 0;
        while i < def.len()
            invariant
                0 <= i <= def@.len(),
                vd == view_entries(def@),
                vd.len() == def@.len(),
                view_entries(acc@) == merge_definition(start, vd.take(i as int), defs_view(defs), fuel as nat),
            decreases def@.len() - i,
        {
            proof {
                lemma_view_entries_take(def@, i as int);
                assert(decreases_to!(*def => def@));
                assert(decreases_to!(def@ => def@[i as int]));
                assert(decreases_to!(def@[i as int] => def@[i as int].1));
            }
            let k = def[i].0.as_str();
            if !(str_eq(k, "$ref") || str_eq(k, "$defs") || str_eq(k, "$schema")) {
                let resolved = self.resolve_with(&def[i].1, defs, fuel);
                put_entry(acc, k, resolved);
            }
            i = i + 1;
        }
        assert(vd.take(i as int) =~= vd);
    }

    /// A schema with its `#/$defs/` references inlined (see [`resolve`]),
    /// nesting at most 64 expansions deep.
    pub fn resolve_schema_refs(&self, schema: &Json, defs: Option<&Json>) -> (r: Json)
        ensures
            r@ == resolve(schema@, defs_view(defs), ref_depth()),
    {
        self.resolve_with(schema, defs, 64)
    }

    /// The provider form of an MCP tool schema (see [`transform`]).
    pub fn transform_mcp_to_anthropic_schema(&self, schema: &Json) -> (r: Json)
        ensures
            r@ == transform(schema@),
    {
        let t = match schema.get("type") {
            Some(t) => copy_json(t),
            None => jstr("object"),
        };
        let needs = schema.get("$defs").is_some() || root_has_ref(schema);
        let resolved = if needs {
            self.resolve_schema_refs(schema, schema.get("$defs"))
        } else {
            copy_json(schema)
        };
        let mut es: Vec<(String, Json)> = Vec::new();
        es.push((copy_str("type"), t));
        proof { lemma_view_entries(es@); }
        assert(view_entries(es@) =~= seq![("type"@, t@)]);
        match resolved.get("properties") {
            Some(p) => {
                let cleaned = self.clean_properties_for_anthropic(p);
                put_entry(&mut es, "properties", cleaned);
            },
            None => {},
        }
        match resolved.get("required") {
            Some(r) => {
                put_entry(&mut es, "required", copy_json(r));
            },
            None => {},
        }
        Json::Object(es)
    }
}

proof fn lemma_resolve_items(items: Seq<JsonV>, defs: Option<JsonV>, fuel: nat)
    ensures
        resolve_items(items, defs, fuel).len() == items.len(),
        forall|i: int| 0 <= i < items.len() ==> #[trigger] resolve_items(items, defs, fuel)[i] == resolve(items[i], defs, fuel),
    decreases items.len(),
{
    if items.len() > 0 {
        lemma_resolve_items(items.drop_last(), defs, fuel);
    }
}

} // verus!
