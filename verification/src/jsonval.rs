use vstd::prelude::*;

verus! {

broadcast use vstd::std_specs::vec::group_vec_axioms, vstd::seq::group_seq_axioms;

/// Mathematical model of a JSON document tree.
///
/// Numbers are carried as their literal decimal text: this canonicalizer
/// never computes with them, it only moves them through.
pub enum JsonData {
    Null,
    Bool(bool),
    Num(Seq<char>),
    Str(Seq<char>),
    Arr(Seq<JsonData>),
    Obj(Seq<(Seq<char>, JsonData)>),
}

/// Executable JSON document tree; object entries keep their original order,
/// and may in principle hold a repeated key.
#[derive(Debug, PartialEq, Eq)]
pub enum JsonVal {
    Null,
    Bool(bool),
    Num(String),
    Str(String),
    Arr(Vec<JsonVal>),
    Obj(Vec<(String, JsonVal)>),
}

impl JsonVal {
    /// The mathematical tree a value stands for.
    pub open spec fn model(self) -> JsonData
        decreases self,
    {
        match self {
            JsonVal::Null => JsonData::Null,
            JsonVal::Bool(b) => JsonData::Bool(b),
            JsonVal::Num(s) => JsonData::Num(s@),
            JsonVal::Str(s) => JsonData::Str(s@),
            JsonVal::Arr(items) => JsonData::Arr(item_models(items@)),
            JsonVal::Obj(entries) => JsonData::Obj(entry_models(entries@)),
        }
    }
}

/// Models of a sequence of values, elementwise.
pub open spec fn item_models(items: Seq<JsonVal>) -> Seq<JsonData>
    decreases items,
{
    if items.len() == 0 {
        Seq::empty()
    } else {
        item_models(items.drop_last()).push(items.last().model())
    }
}

/// Models of a sequence of object entries, elementwise.
pub open spec fn entry_models(entries: Seq<(String, JsonVal)>) -> Seq<(Seq<char>, JsonData)>
    decreases entries,
{
    if entries.len() == 0 {
        Seq::empty()
    } else {
        entry_models(entries.drop_last()).push(
            (entries.last().0@, entries.last().1.model()),
        )
    }
}

/// Pointwise reading of `item_models`.
pub proof fn lemma_item_models(items: Seq<JsonVal>)
    ensures
        item_models(items).len() == items.len(),
        forall|i: int| 0 <= i < items.len() ==> item_models(items)[i] == (#[trigger] items[i]).model(),
    decreases items,
{
    if items.len() > 0 {
        lemma_item_models(items.drop_last());
        assert forall|i: int| 0 <= i < items.len() implies item_models(items)[i] == (
        #[trigger] items[i]).model() by {
            if i < items.len() - 1 {
                assert(items.drop_last()[i] == items[i]);
                assert(item_models(items)[i] == item_models(items.drop_last())[i]);
            } else {
                assert(items[i] == items.last());
            }
        }
    }
}

/// Pointwise reading of `entry_models`.
pub proof fn lemma_entry_models(entries: Seq<(String, JsonVal)>)
    ensures
        entry_models(entries).len() == entries.len(),
        forall|i: int| 0 <= i < entries.len() ==> entry_models(entries)[i] == ((
        #[trigger] entries[i]).0@, entries[i].1.model()),
    decreases entries,
{
    if entries.len() > 0 {
        lemma_entry_models(entries.drop_last());
        assert forall|i: int| 0 <= i < entries.len() implies entry_models(entries)[i] == ((
        #[trigger] entries[i]).0@, entries[i].1.model()) by {
            if i < entries.len() - 1 {
                assert(entries.drop_last()[i] == entries[i]);
                assert(entry_models(entries)[i] == entry_models(entries.drop_last())[i]);
            } else {
                assert(entries[i] == entries.last());
            }
        }
    }
}

/// No number leaf anywhere in the tree.
pub open spec fn num_free(d: JsonData) -> bool
    decreases d,
{
    match d {
        JsonData::Num(_) => false,
        JsonData::Arr(items) => forall|i: int|
            0 <= i < items.len() ==> num_free(#[trigger] items[i]),
        JsonData::Obj(entries) => forall|i: int|
            0 <= i < entries.len() ==> num_free(#[trigger] entries[i].1),
        _ => true,
    }
}

/// Every object in the tree has pairwise distinct keys.
pub open spec fn keys_unique(d: JsonData) -> bool
    decreases d,
{
    match d {
        JsonData::Arr(items) => forall|i: int|
            0 <= i < items.len() ==> keys_unique(#[trigger] items[i]),
        JsonData::Obj(entries) => {
            &&& forall|i: int, j: int|
                0 <= i < j < entries.len() ==> (#[trigger] entries[i].0) != (#[trigger] entries[j].0)
            &&& forall|i: int| 0 <= i < entries.len() ==> keys_unique(#[trigger] entries[i].1)
        },
        _ => true,
    }
}

/// A tree the canonical printer accepts losslessly: no raw number text to
/// re-parse, and no repeated object key to collapse.
pub open spec fn print_safe(d: JsonData) -> bool {
    num_free(d) && keys_unique(d)
}

/// Container nesting of a tree: a leaf is 0 deep, a list or object one
/// deeper than its deepest child.
pub open spec fn json_depth(d: JsonData) -> nat
    decreases d,
{
    match d {
        JsonData::Arr(items) => 1 + items_depth(items),
        JsonData::Obj(entries) => 1 + entries_depth(entries),
        _ => 0,
    }
}

/// The deepest of a sequence of trees.
pub open spec fn items_depth(items: Seq<JsonData>) -> nat
    decreases items,
{
    if items.len() == 0 {
        0
    } else if json_depth(items.last()) > items_depth(items.drop_last()) {
        json_depth(items.last())
    } else {
        items_depth(items.drop_last())
    }
}

/// The deepest value of a sequence of object entries.
pub open spec fn entries_depth(entries: Seq<(Seq<char>, JsonData)>) -> nat
    decreases entries,
{
    if entries.len() == 0 {
        0
    } else if json_depth(entries.last().1) > entries_depth(entries.drop_last()) {
        json_depth(entries.last().1)
    } else {
        entries_depth(entries.drop_last())
    }
}

/// A bound on every element bounds the sequence depth.
pub proof fn lemma_items_depth_bound(items: Seq<JsonData>, k: nat)
    requires
        forall|i: int| 0 <= i < items.len() ==> json_depth(#[trigger] items[i]) <= k,
    ensures
        items_depth(items) <= k,
    decreases items,
{
    if items.len() > 0 {
        assert forall|i: int| 0 <= i < items.drop_last().len() implies json_depth(
            #[trigger] items.drop_last()[i],
        ) <= k by {
            assert(items.drop_last()[i] == items[i]);
        }
        lemma_items_depth_bound(items.drop_last(), k);
        assert(items.last() == items[items.len() - 1]);
    }
}

/// The entry-sequence depth bounds each value.
pub proof fn lemma_entries_depth(entries: Seq<(Seq<char>, JsonData)>)
    ensures
        forall|i: int|
            0 <= i < entries.len() ==> json_depth((#[trigger] entries[i]).1) <= entries_depth(
                entries,
            ),
    decreases entries,
{
    if entries.len() > 0 {
        lemma_entries_depth(entries.drop_last());
        assert forall|i: int| 0 <= i < entries.len() implies json_depth((
        #[trigger] entries[i]).1) <= entries_depth(entries) by {
            if i < entries.len() - 1 {
                assert(entries.drop_last()[i] == entries[i]);
            } else {
                assert(entries[i] == entries.last());
            }
        }
    }
}

/// A bound on every value bounds the entry-sequence depth.
pub proof fn lemma_entries_depth_bound(entries: Seq<(Seq<char>, JsonData)>, k: nat)
    requires
        forall|i: int| 0 <= i < entries.len() ==> json_depth((#[trigger] entries[i]).1) <= k,
    ensures
        entries_depth(entries) <= k,
    decreases entries,
{
    if entries.len() > 0 {
        assert forall|i: int| 0 <= i < entries.drop_last().len() implies json_depth((
        #[trigger] entries.drop_last()[i]).1) <= k by {
            assert(entries.drop_last()[i] == entries[i]);
        }
        lemma_entries_depth_bound(entries.drop_last(), k);
        assert(entries.last() == entries[entries.len() - 1]);
    }
}

} // verus!
