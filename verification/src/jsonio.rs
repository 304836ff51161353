use vstd::prelude::*;
use serde::Serialize;
use crate::jsonval::{JsonVal, JsonData, num_free, keys_unique, json_depth};

verus! {

/// The JSON value type of serde_json, declared so that values of it can
/// pass through signatures; it stays opaque to the verifier.
#[verifier::external_type_specification]
#[verifier::external_body]
pub struct ExValue(serde_json::Value);

/// The tree a serde_json value holds, with numbers as their shortest
/// round-trip decimal text and object entries in their kept order.
pub uninterp spec fn val_model(v: serde_json::Value) -> JsonData;

/// What the JSON grammar, as serde_json reads it, makes of a text: the
/// tree, or nothing when the text is not JSON or nests containers more
/// than 127 deep (serde_json's recursion limit).
pub uninterp spec fn spec_json_of_text(s: Seq<char>) -> Option<JsonData>;

/// The pretty-printed text of a tree, indented by four spaces.
pub uninterp spec fn spec_pretty_text(d: JsonData) -> Seq<char>;

/// A number text in serde_json's own rendering: parsing it back yields a
/// number that renders to the same text again. The crate is built with
/// serde_json's float_roundtrip feature, whose correctly rounded parser
/// makes this hold of every rendered double.
pub uninterp spec fn num_text_canonical(s: Seq<char>) -> bool;

/// Every number leaf in the tree carries a canonical number text.
pub open spec fn nums_canonical(d: JsonData) -> bool
    decreases d,
{
    match d {
        JsonData::Num(s) => num_text_canonical(s),
        JsonData::Arr(items) => forall|i: int|
            0 <= i < items.len() ==> nums_canonical(#[trigger] items[i]),
        JsonData::Obj(entries) => forall|i: int|
            0 <= i < entries.len() ==> nums_canonical(#[trigger] entries[i].1),
        _ => true,
    }
}

/// A tree without number leaves trivially has only canonical ones.
pub proof fn lemma_num_free_nums_canonical(d: JsonData)
    requires
        num_free(d),
    ensures
        nums_canonical(d),
    decreases d,
{
    match d {
        JsonData::Arr(items) => {
            assert forall|i: int| 0 <= i < items.len() implies nums_canonical(
                #[trigger] items[i],
            ) by {
                lemma_num_free_nums_canonical(items[i]);
            }
        },
        JsonData::Obj(entries) => {
            assert forall|i: int| 0 <= i < entries.len() implies nums_canonical(
                #[trigger] entries[i].1,
            ) by {
                lemma_num_free_nums_canonical(entries[i].1);
            }
        },
        _ => {},
    }
}

/// Relies on serde_json::from_str::<serde_json::Value>: it parses JSON
/// text into a value or fails, deterministically in the text. The crate is
/// built with its preserve_order feature, so object entries keep their
/// document order; a key repeated in the raw text is collapsed by
/// serde_json's map before any caller sees it (the entry keeps the first
/// occurrence's place and takes the last occurrence's value), so a parsed
/// value always has pairwise distinct keys. The parser refuses container
/// nesting beyond 127 (its recursion limit of 128 fails on entering the
/// 128th container), so every parsed value is at most 127 deep. Numbers
/// are re-rendered by serde_json itself and, with the float_roundtrip
/// feature's correctly rounded parsing, their texts are canonical.
#[verifier::external_body]
fn text_to_value(s: &str) -> (r: Result<serde_json::Value, String>)
    ensures
        match r {
            Result::Ok(v) => {
                &&& spec_json_of_text(s@) == Option::Some(val_model(v))
                &&& json_depth(val_model(v)) <= 127
                &&& keys_unique(val_model(v))
                &&& nums_canonical(val_model(v))
            },
            Result::Err(_) => spec_json_of_text(s@) is None,
        },
{
    match serde_json::from_str::<serde_json::Value>(s) {
        Ok(v) => Ok(v),
        Err(e) => Err(e.to_string()),
    }
}

/// Relies on serde_json::Value: its six variants are told apart one arm
/// each, fields moved over; a number becomes the decimal text that
/// serde_json itself prints for it, canonical under the crate's
/// float_roundtrip feature. The depth bound keeps the recursion within
/// what the values handed over by the parser can reach.
#[verifier::external_body]
fn value_to_tree(v: &serde_json::Value) -> (t: JsonVal)
    requires
        json_depth(val_model(*v)) <= 127,
    ensures
        t.model() == val_model(*v),
        t.model() is Num ==> num_text_canonical(t.model()->Num_0),
{
    match v {
        serde_json::Value::Null => JsonVal::Null,
        serde_json::Value::Bool(b) => JsonVal::Bool(*b),
        serde_json::Value::Number(n) => JsonVal::Num(n.to_string()),
        serde_json::Value::String(s) => JsonVal::Str(s.clone()),
        serde_json::Value::Array(a) => JsonVal::Arr(a.iter().map(value_to_tree).collect()),
        serde_json::Value::Object(m) => JsonVal::Obj(
            m.iter().map(|(k, x)| (k.clone(), value_to_tree(x))).collect(),
        ),
    }
}

/// Relies on serde_json's Value constructors and Map collection: the tree
/// is rebuilt one arm per variant, which can only keep or shrink the
/// nesting (a failed number parse becomes a text leaf, a repeated key is
/// collapsed by the map). A tree whose number leaves are in serde_json's
/// own canonical rendering, and whose object keys are pairwise distinct,
/// loses nothing on the way over: each number parses back to the number
/// that renders to the same text (float_roundtrip's correctly rounded
/// parse), and distinct keys never collide in the map.
#[verifier::external_body]
fn tree_to_value(t: &JsonVal) -> (v: serde_json::Value)
    requires
        json_depth(t.model()) <= 127,
    ensures
        json_depth(val_model(v)) <= json_depth(t.model()),
        nums_canonical(t.model()) && keys_unique(t.model()) ==> val_model(v) == t.model(),
{
    match t {
        JsonVal::Null => serde_json::Value::Null,
        JsonVal::Bool(b) => serde_json::Value::Bool(*b),
        JsonVal::Num(s) => match serde_json::from_str::<serde_json::Number>(s) {
            Ok(n) => serde_json::Value::Number(n),
            Err(_) => serde_json::Value::String(s.clone()),
        },
        JsonVal::Str(s) => serde_json::Value::String(s.clone()),
        JsonVal::Arr(items) => serde_json::Value::Array(items.iter().map(tree_to_value).collect()),
        JsonVal::Obj(entries) => serde_json::Value::Object(
            entries.iter().map(|(k, x)| (k.clone(), tree_to_value(x))).collect(),
        ),
    }
}

/// Relies on serde_json's Serializer with a four-space PrettyFormatter:
/// the text is a pure function of the value. Within the parser's
/// 127-deep limit, serde_json parses its own output back to an equal
/// value — exactly, for numbers too, under the crate's float_roundtrip
/// feature — which is what the second clause says; the parser skips
/// trailing whitespace, so the third clause holds with a newline
/// appended. The depth bound keeps the serializer's recursion shallow.
#[verifier::external_body]
fn value_to_text_pretty(v: &serde_json::Value) -> (s: String)
    requires
        json_depth(val_model(*v)) <= 127,
    ensures
        s@ == spec_pretty_text(val_model(*v)),
        spec_json_of_text(s@) == Option::Some(val_model(*v)),
        spec_json_of_text(s@ + "\n"@) == Option::Some(val_model(*v)),
{
    let mut buf: Vec<u8> = Vec::new();
    let fmt = serde_json::ser::PrettyFormatter::with_indent(b"    ");
    let mut ser = serde_json::Serializer::with_formatter(&mut buf, fmt);
    match v.serialize(&mut ser) {
        Ok(()) => String::from_utf8(buf).unwrap_or(String::new()),
        Err(_) => String::new(),
    }
}

/// Parse JSON text into a tree: at most 127 containers deep, with
/// pairwise distinct object keys and canonical number texts, exactly as
/// the boundary above reads it. A key repeated in the raw text reaches
/// this function already collapsed, in the first occurrence's place with
/// the last occurrence's value.
pub fn json_parse(s: &str) -> (r: Result<JsonVal, String>)
    ensures
        match r {
            Result::Ok(t) => {
                &&& spec_json_of_text(s@) == Option::Some(t.model())
                &&& json_depth(t.model()) <= 127
                &&& keys_unique(t.model())
                &&& nums_canonical(t.model())
            },
            Result::Err(_) => spec_json_of_text(s@) is None,
        },
{
    match text_to_value(s) {
        Result::Ok(v) => Result::Ok(value_to_tree(&v)),
        Result::Err(e) => Result::Err(e),
    }
}

/// Pretty-print a tree with four-space indentation. For a tree whose
/// number texts are canonical and whose object keys are pairwise
/// distinct, the text is exactly the canonical text of the tree, and
/// parsing it back — even with a trailing newline — yields the tree
/// again.
pub fn json_print(t: &JsonVal) -> (s: String)
    requires
        json_depth(t.model()) <= 127,
    ensures
        nums_canonical(t.model()) && keys_unique(t.model()) ==> {
            &&& s@ == spec_pretty_text(t.model())
            &&& spec_json_of_text(s@) == Option::Some(t.model())
            &&& spec_json_of_text(s@ + "\n"@) == Option::Some(t.model())
        },
{
    let v = tree_to_value(t);
    value_to_text_pretty(&v)
}

} // verus!
