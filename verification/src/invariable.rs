use vstd::prelude::*;
use crate::jsonval::{JsonVal, JsonData, item_models, lemma_item_models};

verus! {

/// Decoding a scalar-or-list field: a list gives its elements, any lone
/// value gives the one-element collection holding it.
pub open spec fn spec_unwrap(d: JsonData) -> Seq<JsonData> {
    match d {
        JsonData::Arr(items) => items,
        _ => seq![d],
    }
}

/// Encoding a collection: exactly one element is emitted as that bare
/// element, every other length as a list in element order.
pub open spec fn spec_wrap(items: Seq<JsonData>) -> JsonData {
    if items.len() == 1 {
        items[0]
    } else {
        JsonData::Arr(items)
    }
}

/// Decode a scalar-or-list value into its element collection.
pub fn unwrap(v: JsonVal) -> (r: Vec<JsonVal>)
    ensures
        item_models(r@) == spec_unwrap(v.model()),
{
    match v {
        JsonVal::Arr(items) => {
            proof {
                lemma_item_models(items@);
            }
            items
        },
        other => {
            let mut r: Vec<JsonVal> = Vec::new();
            proof {
                assert(item_models(r@) =~= Seq::<JsonData>::empty());
            }
            let ghost om = other.model();
            r.push(other);
            proof {
                assert(r@.drop_last() =~= Seq::<JsonVal>::empty());
                assert(item_models(r@) =~= seq![om]);
            }
            r
        },
    }
}

/// Encode a collection, collapsing a singleton to its bare element.
pub fn wrap(items: Vec<JsonVal>) -> (r: JsonVal)
    ensures
        r.model() == spec_wrap(item_models(items@)),
{
    proof {
        lemma_item_models(items@);
    }
    if items.len() == 1 {
        let mut items = items;
        match items.pop() {
            Option::Some(x) => x,
            Option::None => JsonVal::Null,
        }
    } else {
        JsonVal::Arr(items)
    }
}

/// Encoding then decoding gives the collection back, except for the one
/// shape the scalar convention cannot carry: a single element that is
/// itself a list.
pub proof fn lemma_wrap_unwrap(items: Seq<JsonData>)
    requires
        !(items.len() == 1 && items[0] is Arr),
    ensures
        spec_unwrap(spec_wrap(items)) == items,
{
}

/// Decoding, re-encoding and decoding again is the same as decoding once:
/// one canonicalization pass settles the field shape, except when the
/// decoded collection is a lone list.
pub proof fn lemma_unwrap_stable(d: JsonData)
    requires
        !(spec_unwrap(d).len() == 1 && spec_unwrap(d)[0] is Arr),
    ensures
        spec_unwrap(spec_wrap(spec_unwrap(d))) == spec_unwrap(d),
{
    lemma_wrap_unwrap(spec_unwrap(d));
}

} // verus!
