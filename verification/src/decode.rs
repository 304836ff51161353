use vstd::prelude::*;
use vstd::string::{StrSliceExecFns, StringExecFns};
use crate::cmp3::{Cmp, CanonOrd};
use crate::jsonval::{JsonVal, JsonData, item_models, entry_models, lemma_item_models,
    lemma_entry_models};
use crate::arn::{Arn, ArnData, arn_cmp, spec_parse_arn};
use crate::idents::{Effect, spec_parse_effect, Action, ActionData, action_cmp, spec_parse_action,
    Resource, ResourceData, resource_cmp, spec_parse_resource};
use crate::seqcmp::text_cmp;
use crate::strutil::text_eq;
use crate::ordset::{OrdSet, spec_set_insert};
use crate::model::{Principal, PrincipalData, CondBlock, Condition, CondData, Statement,
    StatementData, Policy, PolicyData, spec_upsert, texts_model, stmts_model};
use crate::invariable;
use crate::textfield::{self, spec_text_field};

verus! {

broadcast use vstd::seq::group_seq_axioms, vstd::std_specs::vec::group_vec_axioms;

/// The message for a value of the wrong shape where an object is expected.
pub open spec fn msg_expected_map() -> Seq<char> {
    "invalid type: expected a map"@
}

/// The message for a field seen twice.
pub open spec fn msg_duplicate(name: Seq<char>) -> Seq<char> {
    "duplicate field `"@ + name + "`"@
}

/// An action element: a text scalar holding an action.
pub open spec fn spec_action_elem(d: JsonData) -> Result<ActionData, Seq<char>> {
    match spec_text_field(d) {
        Result::Ok(t) => spec_parse_action(t),
        Result::Err(e) => Result::Err(e),
    }
}

/// A resource element: a text scalar holding a resource.
pub open spec fn spec_resource_elem(d: JsonData) -> Result<ResourceData, Seq<char>> {
    match spec_text_field(d) {
        Result::Ok(t) => spec_parse_resource(t),
        Result::Err(e) => Result::Err(e),
    }
}

/// An ARN element: a text scalar holding an ARN.
pub open spec fn spec_arn_elem(d: JsonData) -> Result<ArnData, Seq<char>> {
    match spec_text_field(d) {
        Result::Ok(t) => spec_parse_arn(t),
        Result::Err(e) => Result::Err(e),
    }
}

/// A plain text element.
pub open spec fn spec_string_elem(d: JsonData) -> Result<Seq<char>, Seq<char>> {
    spec_text_field(d)
}

/// Parse each element and gather the results into an ordered set:
/// the first element error aborts the whole field.
pub open spec fn spec_set_fold<M>(
    pe: spec_fn(JsonData) -> Result<M, Seq<char>>,
    c: spec_fn(M, M) -> Cmp,
    items: Seq<JsonData>,
    acc: Seq<M>,
) -> Result<Seq<M>, Seq<char>>
    decreases items.len(),
{
    if items.len() == 0 {
        Result::Ok(acc)
    } else {
        match pe(items[0]) {
            Result::Err(e) => Result::Err(e),
            Result::Ok(m) => spec_set_fold(pe, c, items.drop_first(), spec_set_insert(c, acc, m)),
        }
    }
}

/// What decoding an action set field yields.
pub open spec fn spec_action_set(d: JsonData) -> Result<Seq<ActionData>, Seq<char>> {
    spec_set_fold(
        |x: JsonData| spec_action_elem(x),
        |a: ActionData, b: ActionData| action_cmp(a, b),
        invariable::spec_unwrap(d),
        Seq::empty(),
    )
}

/// What decoding a resource set field yields.
pub open spec fn spec_resource_set(d: JsonData) -> Result<Seq<ResourceData>, Seq<char>> {
    spec_set_fold(
        |x: JsonData| spec_resource_elem(x),
        |a: ResourceData, b: ResourceData| resource_cmp(a, b),
        invariable::spec_unwrap(d),
        Seq::empty(),
    )
}

/// What decoding an ARN set field yields.
pub open spec fn spec_arn_set(d: JsonData) -> Result<Seq<ArnData>, Seq<char>> {
    spec_set_fold(
        |x: JsonData| spec_arn_elem(x),
        |a: ArnData, b: ArnData| arn_cmp(a, b),
        invariable::spec_unwrap(d),
        Seq::empty(),
    )
}

/// What decoding a text set field yields.
pub open spec fn spec_string_set(d: JsonData) -> Result<Seq<Seq<char>>, Seq<char>> {
    spec_set_fold(
        |x: JsonData| spec_string_elem(x),
        |a: Seq<char>, b: Seq<char>| text_cmp(a, b),
        invariable::spec_unwrap(d),
        Seq::empty(),
    )
}

/// Read each element as text, keeping order and repetitions.
pub open spec fn spec_string_list_fold(items: Seq<JsonData>, acc: Seq<Seq<char>>) -> Result<
    Seq<Seq<char>>,
    Seq<char>,
>
    decreases items.len(),
{
    if items.len() == 0 {
        Result::Ok(acc)
    } else {
        match spec_text_field(items[0]) {
            Result::Err(e) => Result::Err(e),
            Result::Ok(t) => spec_string_list_fold(items.drop_first(), acc.push(t)),
        }
    }
}

/// What decoding a scalar-or-list of texts yields, order kept.
pub open spec fn spec_string_list(d: JsonData) -> Result<Seq<Seq<char>>, Seq<char>> {
    spec_string_list_fold(invariable::spec_unwrap(d), Seq::empty())
}

/// What decoding one operator block of a condition yields.
pub open spec fn spec_cond_block_fold(
    entries: Seq<(Seq<char>, JsonData)>,
    acc: Seq<(Seq<char>, Seq<Seq<char>>)>,
) -> Result<Seq<(Seq<char>, Seq<Seq<char>>)>, Seq<char>>
    decreases entries.len(),
{
    if entries.len() == 0 {
        Result::Ok(acc)
    } else {
        match spec_string_list(entries[0].1) {
            Result::Err(e) => Result::Err(e),
            Result::Ok(vals) => spec_cond_block_fold(
                entries.drop_first(),
                spec_upsert(acc, entries[0].0, vals),
            ),
        }
    }
}

pub open spec fn spec_decode_cond_block(d: JsonData) -> Result<
    Seq<(Seq<char>, Seq<Seq<char>>)>,
    Seq<char>,
> {
    match d {
        JsonData::Obj(entries) => spec_cond_block_fold(entries, Seq::empty()),
        _ => Result::Err(msg_expected_map()),
    }
}

/// What decoding a whole condition table yields: operator blocks in
/// original order, a repeated operator replaced in place.
pub open spec fn spec_cond_fold(entries: Seq<(Seq<char>, JsonData)>, acc: CondData) -> Result<
    CondData,
    Seq<char>,
>
    decreases entries.len(),
{
    if entries.len() == 0 {
        Result::Ok(acc)
    } else {
        match spec_decode_cond_block(entries[0].1) {
            Result::Err(e) => Result::Err(e),
            Result::Ok(block) => spec_cond_fold(
                entries.drop_first(),
                spec_upsert(acc, entries[0].0, block),
            ),
        }
    }
}

pub open spec fn spec_decode_condition(d: JsonData) -> Result<CondData, Seq<char>> {
    match d {
        JsonData::Obj(entries) => spec_cond_fold(entries, Seq::empty()),
        _ => Result::Err(msg_expected_map()),
    }
}

/// The slots gathered while walking a principal object.
pub struct PrincAcc {
    pub aws: Option<Seq<ArnData>>,
    pub canonical_user: Option<Seq<Seq<char>>>,
    pub federated: Option<Seq<Seq<char>>>,
    pub service: Option<Seq<Seq<char>>>,
}

/// The message for a key a principal object may not hold.
pub open spec fn msg_unknown_principal(k: Seq<char>) -> Seq<char> {
    "unknown field `"@ + k + "`, expected one of `AWS`, `CanonicalUser`, `Federated`, `Service`"@
}

/// Walking the entries of a principal object: recognized keys fill their
/// slot once, a repeated or unknown key is the exact error.
pub open spec fn spec_principal_fold(entries: Seq<(Seq<char>, JsonData)>, acc: PrincAcc) -> Result<
    PrincAcc,
    Seq<char>,
>
    decreases entries.len(),
{
    if entries.len() == 0 {
        Result::Ok(acc)
    } else {
        let (k, v) = entries[0];
        if k == "AWS"@ {
            if acc.aws is Some {
                Result::Err(msg_duplicate("AWS"@))
            } else {
                match spec_arn_set(v) {
                    Result::Err(e) => Result::Err(e),
                    Result::Ok(s) => spec_principal_fold(
                        entries.drop_first(),
                        PrincAcc { aws: Option::Some(s), ..acc },
                    ),
                }
            }
        } else if k == "CanonicalUser"@ {
            if acc.canonical_user is Some {
                Result::Err(msg_duplicate("CanonicalUser"@))
            } else {
                match spec_string_set(v) {
                    Result::Err(e) => Result::Err(e),
                    Result::Ok(s) => spec_principal_fold(
                        entries.drop_first(),
                        PrincAcc { canonical_user: Option::Some(s), ..acc },
                    ),
                }
            }
        } else if k == "Federated"@ {
            if acc.federated is Some {
                Result::Err(msg_duplicate("Federated"@))
            } else {
                match spec_string_set(v) {
                    Result::Err(e) => Result::Err(e),
                    Result::Ok(s) => spec_principal_fold(
                        entries.drop_first(),
                        PrincAcc { federated: Option::Some(s), ..acc },
                    ),
                }
            }
        } else if k == "Service"@ {
            if acc.service is Some {
                Result::Err(msg_duplicate("Service"@))
            } else {
                match spec_string_set(v) {
                    Result::Err(e) => Result::Err(e),
                    Result::Ok(s) => spec_principal_fold(
                        entries.drop_first(),
                        PrincAcc { service: Option::Some(s), ..acc },
                    ),
                }
            }
        } else {
            Result::Err(msg_unknown_principal(k))
        }
    }
}

/// An absent slot is the empty set.
pub open spec fn princ_acc_data(acc: PrincAcc) -> PrincipalData {
    PrincipalData {
        aws: match acc.aws {
            Option::Some(s) => s,
            Option::None => Seq::empty(),
        },
        canonical_user: match acc.canonical_user {
            Option::Some(s) => s,
            Option::None => Seq::empty(),
        },
        federated: match acc.federated {
            Option::Some(s) => s,
            Option::None => Seq::empty(),
        },
        service: match acc.service {
            Option::Some(s) => s,
            Option::None => Seq::empty(),
        },
    }
}

/// What decoding a principal yields.
pub open spec fn spec_decode_principal(d: JsonData) -> Result<PrincipalData, Seq<char>> {
    match d {
        JsonData::Obj(entries) => match spec_principal_fold(
            entries,
            PrincAcc {
                aws: Option::None,
                canonical_user: Option::None,
                federated: Option::None,
                service: Option::None,
            },
        ) {
            Result::Err(e) => Result::Err(e),
            Result::Ok(acc) => Result::Ok(princ_acc_data(acc)),
        },
        _ => Result::Err(msg_expected_map()),
    }
}

/// Dropping the head of a value sequence drops the head of its models.
pub proof fn lemma_item_models_drop(items: Seq<JsonVal>)
    requires
        items.len() > 0,
    ensures
        item_models(items)[0] == items[0].model(),
        item_models(items).drop_first() =~= item_models(items.drop_first()),
{
    lemma_item_models(items);
    lemma_item_models(items.drop_first());
    assert forall|k: int| 0 <= k < items.len() - 1 implies item_models(items).drop_first()[k]
        == item_models(items.drop_first())[k] by {
        assert(items.drop_first()[k] == items[k + 1]);
    }
}

/// Dropping the head of an entry sequence drops the head of its models.
pub proof fn lemma_entry_models_drop(entries: Seq<(String, JsonVal)>)
    requires
        entries.len() > 0,
    ensures
        entry_models(entries)[0] == (entries[0].0@, entries[0].1.model()),
        entry_models(entries).drop_first() =~= entry_models(entries.drop_first()),
{
    lemma_entry_models(entries);
    lemma_entry_models(entries.drop_first());
    assert forall|k: int| 0 <= k < entries.len() - 1 implies entry_models(entries).drop_first()[k]
        == entry_models(entries.drop_first())[k] by {
        assert(entries.drop_first()[k] == entries[k + 1]);
    }
}

/// Decode an action set field, exactly as `spec_action_set` says.
#[verifier::loop_isolation(false)]
pub fn decode_action_set(v: JsonVal) -> (r: Result<OrdSet<Action>, String>)
    ensures
        match r {
            Result::Ok(s) => s.wf() && spec_action_set(v.model()) == Result::<
                Seq<ActionData>,
                Seq<char>,
            >::Ok(s.model()),
            Result::Err(e) => spec_action_set(v.model()) == Result::<
                Seq<ActionData>,
                Seq<char>,
            >::Err(e@),
        },
{
    let ghost pe = |x: JsonData| spec_action_elem(x);
    let ghost c = |a: ActionData, b: ActionData| action_cmp(a, b);
    let ghost dm = v.model();
    let ghost goal = spec_action_set(dm);
    proof {
        assert((|a: ActionData, b: ActionData| <Action as CanonOrd>::mcmp(a, b)) =~= c);
    }
    let mut items = invariable::unwrap(v);
    let mut out: OrdSet<Action> = OrdSet::new();
    proof {
        assert(out.model() =~= Seq::<ActionData>::empty());
    }
    while items.len() > 0
        invariant
            out.wf(),
            pe == (|x: JsonData| spec_action_elem(x)),
            c == (|a: ActionData, b: ActionData| action_cmp(a, b)),
            (|a: ActionData, b: ActionData| <Action as CanonOrd>::mcmp(a, b)) == c,
            goal == spec_action_set(dm),
            goal == spec_set_fold(pe, c, item_models(items@), out.model()),
        decreases items@.len(),
    {
        let ghost before = items@;
        let ghost acc0 = out.model();
        proof {
            lemma_item_models_drop(before);
        }
        let x = items.remove(0);
        let ghost xm = x.model();
        proof {
            assert(items@ =~= before.drop_first());
            assert(item_models(items@) =~= item_models(before).drop_first());
            assert(goal == spec_set_fold(pe, c, item_models(before), acc0));
            assert(item_models(before)[0] == xm);
        }
        match x {
            JsonVal::Str(t) => {
                proof {
                    assert(pe(xm) == spec_parse_action(t@));
                }
                match Action::parse(t.as_str()) {
                    Result::Ok(a) => {
                        out.insert(a);
                    },
                    Result::Err(e) => {
                        return Result::Err(e);
                    },
                }
            },
            _ => {
                proof {
                    assert(pe(xm) == Result::<ActionData, Seq<char>>::Err(
                        "invalid type: expected a string"@,
                    ));
                }
                return Result::Err(String::from_str("invalid type: expected a string"));
            },
        }
    }
    Result::Ok(out)
}

/// Decode a resource set field, exactly as `spec_resource_set` says.
#[verifier::loop_isolation(false)]
pub fn decode_resource_set(v: JsonVal) -> (r: Result<OrdSet<Resource>, String>)
    ensures
        match r {
            Result::Ok(s) => s.wf() && spec_resource_set(v.model()) == Result::<
                Seq<ResourceData>,
                Seq<char>,
            >::Ok(s.model()),
            Result::Err(e) => spec_resource_set(v.model()) == Result::<
                Seq<ResourceData>,
                Seq<char>,
            >::Err(e@),
        },
{
    let ghost pe = |x: JsonData| spec_resource_elem(x);
    let ghost c = |a: ResourceData, b: ResourceData| resource_cmp(a, b);
    let ghost dm = v.model();
    let ghost goal = spec_resource_set(dm);
    proof {
        assert((|a: ResourceData, b: ResourceData| <Resource as CanonOrd>::mcmp(a, b)) =~= c);
    }
    let mut items = invariable::unwrap(v);
    let mut out: OrdSet<Resource> = OrdSet::new();
    proof {
        assert(out.model() =~= Seq::<ResourceData>::empty());
    }
    while items.len() > 0
        invariant
            out.wf(),
            goal == spec_set_fold(pe, c, item_models(items@), out.model()),
        decreases items@.len(),
    {
        let ghost before = items@;
        let ghost acc0 = out.model();
        proof {
            lemma_item_models_drop(before);
        }
        let x = items.remove(0);
        let ghost xm = x.model();
        proof {
            assert(items@ =~= before.drop_first());
            assert(item_models(items@) =~= item_models(before).drop_first());
            assert(item_models(before)[0] == xm);
        }
        match x {
            JsonVal::Str(t) => {
                proof {
                    assert(pe(xm) == spec_parse_resource(t@));
                }
                match Resource::parse(t.as_str()) {
                    Result::Ok(a) => {
                        out.insert(a);
                    },
                    Result::Err(e) => {
                        return Result::Err(e);
                    },
                }
            },
            _ => {
                proof {
                    assert(pe(xm) == Result::<ResourceData, Seq<char>>::Err(
                        "invalid type: expected a string"@,
                    ));
                }
                return Result::Err(String::from_str("invalid type: expected a string"));
            },
        }
    }
    Result::Ok(out)
}

/// Decode an ARN set field, exactly as `spec_arn_set` says.
#[verifier::loop_isolation(false)]
pub fn decode_arn_set(v: JsonVal) -> (r: Result<OrdSet<Arn>, String>)
    ensures
        match r {
            Result::Ok(s) => s.wf() && spec_arn_set(v.model()) == Result::<
                Seq<ArnData>,
                Seq<char>,
            >::Ok(s.model()),
            Result::Err(e) => spec_arn_set(v.model()) == Result::<Seq<ArnData>, Seq<char>>::Err(
                e@,
            ),
        },
{
    let ghost pe = |x: JsonData| spec_arn_elem(x);
    let ghost c = |a: ArnData, b: ArnData| arn_cmp(a, b);
    let ghost dm = v.model();
    let ghost goal = spec_arn_set(dm);
    proof {
        assert((|a: ArnData, b: ArnData| <Arn as CanonOrd>::mcmp(a, b)) =~= c);
    }
    let mut items = invariable::unwrap(v);
    let mut out: OrdSet<Arn> = OrdSet::new();
    proof {
        assert(out.model() =~= Seq::<ArnData>::empty());
    }
    while items.len() > 0
        invariant
            out.wf(),
            goal == spec_set_fold(pe, c, item_models(items@), out.model()),
        decreases items@.len(),
    {
        let ghost before = items@;
        let ghost acc0 = out.model();
        proof {
            lemma_item_models_drop(before);
        }
        let x = items.remove(0);
        let ghost xm = x.model();
        proof {
            assert(items@ =~= before.drop_first());
            assert(item_models(items@) =~= item_models(before).drop_first());
            assert(item_models(before)[0] == xm);
        }
        match x {
            JsonVal::Str(t) => {
                proof {
                    assert(pe(xm) == spec_parse_arn(t@));
                }
                match Arn::parse(t.as_str()) {
                    Result::Ok(a) => {
                        out.insert(a);
                    },
                    Result::Err(e) => {
                        return Result::Err(e);
                    },
                }
            },
            _ => {
                proof {
                    assert(pe(xm) == Result::<ArnData, Seq<char>>::Err(
                        "invalid type: expected a string"@,
                    ));
                }
                return Result::Err(String::from_str("invalid type: expected a string"));
            },
        }
    }
    Result::Ok(out)
}

/// Decode a text set field, exactly as `spec_string_set` says.
#[verifier::loop_isolation(false)]
pub fn decode_string_set(v: JsonVal) -> (r: Result<OrdSet<String>, String>)
    ensures
        match r {
            Result::Ok(s) => s.wf() && spec_string_set(v.model()) == Result::<
                Seq<Seq<char>>,
                Seq<char>,
            >::Ok(s.model()),
            Result::Err(e) => spec_string_set(v.model()) == Result::<
                Seq<Seq<char>>,
                Seq<char>,
            >::Err(e@),
        },
{
    let ghost pe = |x: JsonData| spec_string_elem(x);
    let ghost c = |a: Seq<char>, b: Seq<char>| text_cmp(a, b);
    let ghost dm = v.model();
    let ghost goal = spec_string_set(dm);
    proof {
        assert((|a: Seq<char>, b: Seq<char>| <String as CanonOrd>::mcmp(a, b)) =~= c);
    }
    let mut items = invariable::unwrap(v);
    let mut out: OrdSet<String> = OrdSet::new();
    proof {
        assert(out.model() =~= Seq::<Seq<char>>::empty());
    }
    while items.len() > 0
        invariant
            out.wf(),
            goal == spec_set_fold(pe, c, item_models(items@), out.model()),
        decreases items@.len(),
    {
        let ghost before = items@;
        proof {
            lemma_item_models_drop(before);
        }
        let x = items.remove(0);
        let ghost xm = x.model();
        proof {
            assert(items@ =~= before.drop_first());
            assert(item_models(items@) =~= item_models(before).drop_first());
            assert(item_models(before)[0] == xm);
        }
        match x {
            JsonVal::Str(t) => {
                out.insert(t);
            },
            _ => {
                proof {
                    assert(pe(xm) == Result::<Seq<char>, Seq<char>>::Err(
                        "invalid type: expected a string"@,
                    ));
                }
                return Result::Err(String::from_str("invalid type: expected a string"));
            },
        }
    }
    Result::Ok(out)
}

/// Decode a scalar-or-list of texts, keeping order and repetitions.
#[verifier::loop_isolation(false)]
pub fn decode_string_list(v: JsonVal) -> (r: Result<Vec<String>, String>)
    ensures
        match r {
            Result::Ok(l) => spec_string_list(v.model()) == Result::<
                Seq<Seq<char>>,
                Seq<char>,
            >::Ok(texts_model(l)),
            Result::Err(e) => spec_string_list(v.model()) == Result::<
                Seq<Seq<char>>,
                Seq<char>,
            >::Err(e@),
        },
{
    let ghost dm = v.model();
    let ghost goal = spec_string_list(dm);
    let mut items = invariable::unwrap(v);
    let mut out: Vec<String> = Vec::new();
    proof {
        assert(texts_model(out) =~= Seq::<Seq<char>>::empty());
    }
    while items.len() > 0
        invariant
            goal == spec_string_list_fold(item_models(items@), texts_model(out)),
        decreases items@.len(),
    {
        let ghost before = items@;
        let ghost acc0 = texts_model(out);
        proof {
            lemma_item_models_drop(before);
        }
        let x = items.remove(0);
        let ghost xm = x.model();
        proof {
            assert(items@ =~= before.drop_first());
            assert(item_models(items@) =~= item_models(before).drop_first());
            assert(item_models(before)[0] == xm);
        }
        match x {
            JsonVal::Str(t) => {
                out.push(t);
                proof {
                    assert(texts_model(out) =~= acc0.push(out@.last()@));
                }
            },
            _ => {
                return Result::Err(String::from_str("invalid type: expected a string"));
            },
        }
    }
    Result::Ok(out)
}

/// Decode one operator block of a condition, exactly as
/// `spec_decode_cond_block` says.
#[verifier::loop_isolation(false)]
pub fn decode_cond_block(v: JsonVal) -> (r: Result<CondBlock, String>)
    ensures
        match r {
            Result::Ok(b) => b.wf() && spec_decode_cond_block(v.model()) == Result::<
                Seq<(Seq<char>, Seq<Seq<char>>)>,
                Seq<char>,
            >::Ok(b.model()),
            Result::Err(e) => spec_decode_cond_block(v.model()) == Result::<
                Seq<(Seq<char>, Seq<Seq<char>>)>,
                Seq<char>,
            >::Err(e@),
        },
{
    let ghost dm = v.model();
    let ghost goal = spec_decode_cond_block(dm);
    let mut entries = match v {
        JsonVal::Obj(entries) => entries,
        _ => {
            return Result::Err(String::from_str("invalid type: expected a map"));
        },
    };
    let mut out = CondBlock::new();
    while entries.len() > 0
        invariant
            out.wf(),
            goal == spec_cond_block_fold(entry_models(entries@), out.model()),
        decreases entries@.len(),
    {
        let ghost before = entries@;
        let ghost acc0 = out.model();
        proof {
            lemma_entry_models_drop(before);
        }
        let kv = entries.remove(0);
        let ghost km = kv.0@;
        let ghost vm = kv.1.model();
        proof {
            assert(entries@ =~= before.drop_first());
            assert(entry_models(entries@) =~= entry_models(before).drop_first());
            assert(entry_models(before)[0] == (km, vm));
        }
        let (k, val) = kv;
        match decode_string_list(val) {
            Result::Ok(vals) => {
                out.upsert(k, vals);
            },
            Result::Err(e) => {
                return Result::Err(e);
            },
        }
    }
    Result::Ok(out)
}

/// Decode a condition table, exactly as `spec_decode_condition` says.
#[verifier::loop_isolation(false)]
pub fn decode_condition(v: JsonVal) -> (r: Result<Condition, String>)
    ensures
        match r {
            Result::Ok(c) => c.wf() && spec_decode_condition(v.model()) == Result::<
                CondData,
                Seq<char>,
            >::Ok(c.model()),
            Result::Err(e) => spec_decode_condition(v.model()) == Result::<
                CondData,
                Seq<char>,
            >::Err(e@),
        },
{
    let ghost dm = v.model();
    let ghost goal = spec_decode_condition(dm);
    let mut entries = match v {
        JsonVal::Obj(entries) => entries,
        _ => {
            return Result::Err(String::from_str("invalid type: expected a map"));
        },
    };
    let mut out = Condition::new();
    while entries.len() > 0
        invariant
            out.wf(),
            goal == spec_cond_fold(entry_models(entries@), out.model()),
        decreases entries@.len(),
    {
        let ghost before = entries@;
        proof {
            lemma_entry_models_drop(before);
        }
        let kv = entries.remove(0);
        let ghost km = kv.0@;
        let ghost vm = kv.1.model();
        proof {
            assert(entries@ =~= before.drop_first());
            assert(entry_models(entries@) =~= entry_models(before).drop_first());
            assert(entry_models(before)[0] == (km, vm));
        }
        let (k, val) = kv;
        match decode_cond_block(val) {
            Result::Ok(block) => {
                out.upsert(k, block);
            },
            Result::Err(e) => {
                return Result::Err(e);
            },
        }
    }
    Result::Ok(out)
}

/// The slot models of a partially decoded principal.
pub open spec fn princ_slots(
    aws: Option<OrdSet<Arn>>,
    canonical_user: Option<OrdSet<String>>,
    federated: Option<OrdSet<String>>,
    service: Option<OrdSet<String>>,
) -> PrincAcc {
    PrincAcc {
        aws: match aws {
            Option::Some(s) => Option::Some(s.model()),
            Option::None => Option::None,
        },
        canonical_user: match canonical_user {
            Option::Some(s) => Option::Some(s.model()),
            Option::None => Option::None,
        },
        federated: match federated {
            Option::Some(s) => Option::Some(s.model()),
            Option::None => Option::None,
        },
        service: match service {
            Option::Some(s) => Option::Some(s.model()),
            Option::None => Option::None,
        },
    }
}

/// Decode a principal, exactly as `spec_decode_principal` says.
#[verifier::loop_isolation(false)]
pub fn decode_principal(v: JsonVal) -> (r: Result<Principal, String>)
    ensures
        match r {
            Result::Ok(p) => p.wf() && spec_decode_principal(v.model()) == Result::<
                PrincipalData,
                Seq<char>,
            >::Ok(p.model()),
            Result::Err(e) => spec_decode_principal(v.model()) == Result::<
                PrincipalData,
                Seq<char>,
            >::Err(e@),
        },
{
    let ghost dm = v.model();
    let ghost goal = spec_decode_principal(dm);
    let mut entries = match v {
        JsonVal::Obj(entries) => entries,
        _ => {
            return Result::Err(String::from_str("invalid type: expected a map"));
        },
    };
    let mut aws: Option<OrdSet<Arn>> = Option::None;
    let mut canonical_user: Option<OrdSet<String>> = Option::None;
    let mut federated: Option<OrdSet<String>> = Option::None;
    let mut service: Option<OrdSet<String>> = Option::None;
    while entries.len() > 0
        invariant
            match aws {
                Option::Some(s) => s.wf(),
                Option::None => true,
            },
            match canonical_user {
                Option::Some(s) => s.wf(),
                Option::None => true,
            },
            match federated {
                Option::Some(s) => s.wf(),
                Option::None => true,
            },
            match service {
                Option::Some(s) => s.wf(),
                Option::None => true,
            },
            goal == (match spec_principal_fold(
                entry_models(entries@),
                princ_slots(aws, canonical_user, federated, service),
            ) {
                Result::Err(e) => Result::<PrincipalData, Seq<char>>::Err(e),
                Result::Ok(acc) => Result::<PrincipalData, Seq<char>>::Ok(princ_acc_data(acc)),
            }),
        decreases entries@.len(),
    {
        let ghost before = entries@;
        proof {
            lemma_entry_models_drop(before);
        }
        let kv = entries.remove(0);
        let ghost km = kv.0@;
        let ghost vm = kv.1.model();
        proof {
            assert(entries@ =~= before.drop_first());
            assert(entry_models(entries@) =~= entry_models(before).drop_first());
            assert(entry_models(before)[0] == (km, vm));
        }
        let (k, val) = kv;
        if text_eq(k.as_str(), "AWS") {
            if aws.is_some() {
                let mut m = String::from_str("duplicate field `");
                m.append("AWS");
                m.append("`");
                return Result::Err(m);
            }
            match decode_arn_set(val) {
                Result::Ok(s) => {
                    aws = Option::Some(s);
                },
                Result::Err(e) => {
                    return Result::Err(e);
                },
            }
        } else if text_eq(k.as_str(), "CanonicalUser") {
            if canonical_user.is_some() {
                let mut m = String::from_str("duplicate field `");
                m.append("CanonicalUser");
                m.append("`");
                return Result::Err(m);
            }
            match decode_string_set(val) {
                Result::Ok(s) => {
                    canonical_user = Option::Some(s);
                },
                Result::Err(e) => {
                    return Result::Err(e);
                },
            }
        } else if text_eq(k.as_str(), "Federated") {
            if federated.is_some() {
                let mut m = String::from_str("duplicate field `");
                m.append("Federated");
                m.append("`");
                return Result::Err(m);
            }
            match decode_string_set(val) {
                Result::Ok(s) => {
                    federated = Option::Some(s);
                },
                Result::Err(e) => {
                    return Result::Err(e);
                },
            }
        } else if text_eq(k.as_str(), "Service") {
            if service.is_some() {
                let mut m = String::from_str("duplicate field `");
                m.append("Service");
                m.append("`");
                return Result::Err(m);
            }
            match decode_string_set(val) {
                Result::Ok(s) => {
                    service = Option::Some(s);
                },
                Result::Err(e) => {
                    return Result::Err(e);
                },
            }
        } else {
            let mut m = String::from_str("unknown field `");
            m.append(k.as_str());
            m.append("`, expected one of `AWS`, `CanonicalUser`, `Federated`, `Service`");
            return Result::Err(m);
        }
    }
    let ghost slots = princ_slots(aws, canonical_user, federated, service);
    let p = Principal {
        aws: match aws {
            Option::Some(s) => s,
            Option::None => OrdSet::new(),
        },
        canonical_user: match canonical_user {
            Option::Some(s) => s,
            Option::None => OrdSet::new(),
        },
        federated: match federated {
            Option::Some(s) => s,
            Option::None => OrdSet::new(),
        },
        service: match service {
            Option::Some(s) => s,
            Option::None => OrdSet::new(),
        },
    };
    proof {
        assert(p.model().aws =~= princ_acc_data(slots).aws);
        assert(p.model().canonical_user =~= princ_acc_data(slots).canonical_user);
        assert(p.model().federated =~= princ_acc_data(slots).federated);
        assert(p.model().service =~= princ_acc_data(slots).service);
        assert(goal == Result::<PrincipalData, Seq<char>>::Ok(princ_acc_data(slots)));
    }
    Result::Ok(p)
}

/// An effect field: a text scalar holding an effect literal.
pub open spec fn spec_effect_field(d: JsonData) -> Result<Effect, Seq<char>> {
    match spec_text_field(d) {
        Result::Ok(t) => spec_parse_effect(t),
        Result::Err(e) => Result::Err(e),
    }
}

/// The slots gathered while walking a statement object.
pub struct StmtAcc {
    pub sid: Option<Seq<char>>,
    pub effect: Option<Effect>,
    pub principal: Option<PrincipalData>,
    pub not_principal: Option<PrincipalData>,
    pub action: Option<Seq<ActionData>>,
    pub not_action: Option<Seq<ActionData>>,
    pub resource: Option<Seq<ResourceData>>,
    pub not_resource: Option<Seq<ResourceData>>,
    pub condition: Option<CondData>,
}

/// The message for a key a statement object may not hold.
pub open spec fn msg_unknown_statement(k: Seq<char>) -> Seq<char> {
    "unknown field `"@ + k
        + "`, expected one of `Sid`, `Effect`, `Principal`, `NotPrincipal`, `Action`, `NotAction`, `Resource`, `NotResource`, `Condition`"@
}

/// The message for a statement without an effect.
pub open spec fn msg_missing_effect() -> Seq<char> {
    "missing field `Effect`"@
}

/// Walking the entries of a statement object: recognized keys fill their
/// slot once, a repeated or unknown key is the exact error.
pub open spec fn spec_stmt_fold(entries: Seq<(Seq<char>, JsonData)>, acc: StmtAcc) -> Result<
    StmtAcc,
    Seq<char>,
>
    decreases entries.len(),
{
    if entries.len() == 0 {
        Result::Ok(acc)
    } else {
        let (k, v) = entries[0];
        if k == "Sid"@ {
            if acc.sid is Some {
                Result::Err(msg_duplicate("Sid"@))
            } else {
                match spec_text_field(v) {
                    Result::Err(e) => Result::Err(e),
                    Result::Ok(t) => spec_stmt_fold(
                        entries.drop_first(),
                        StmtAcc { sid: Option::Some(t), ..acc },
                    ),
                }
            }
        } else if k == "Effect"@ {
            if acc.effect is Some {
                Result::Err(msg_duplicate("Effect"@))
            } else {
                match spec_effect_field(v) {
                    Result::Err(e) => Result::Err(e),
                    Result::Ok(eff) => spec_stmt_fold(
                        entries.drop_first(),
                        StmtAcc { effect: Option::Some(eff), ..acc },
                    ),
                }
            }
        } else if k == "Principal"@ {
            if acc.principal is Some {
                Result::Err(msg_duplicate("Principal"@))
            } else {
                match spec_decode_principal(v) {
                    Result::Err(e) => Result::Err(e),
                    Result::Ok(p) => spec_stmt_fold(
                        entries.drop_first(),
                        StmtAcc { principal: Option::Some(p), ..acc },
                    ),
                }
            }
        } else if k == "NotPrincipal"@ {
            if acc.not_principal is Some {
                Result::Err(msg_duplicate("NotPrincipal"@))
            } else {
                match spec_decode_principal(v) {
                    Result::Err(e) => Result::Err(e),
                    Result::Ok(p) => spec_stmt_fold(
                        entries.drop_first(),
                        StmtAcc { not_principal: Option::Some(p), ..acc },
                    ),
                }
            }
        } else if k == "Action"@ {
            if acc.action is Some {
                Result::Err(msg_duplicate("Action"@))
            } else {
                match spec_action_set(v) {
                    Result::Err(e) => Result::Err(e),
                    Result::Ok(s) => spec_stmt_fold(
                        entries.drop_first(),
                        StmtAcc { action: Option::Some(s), ..acc },
                    ),
                }
            }
        } else if k == "NotAction"@ {
            if acc.not_action is Some {
                Result::Err(msg_duplicate("NotAction"@))
            } else {
                match spec_action_set(v) {
                    Result::Err(e) => Result::Err(e),
                    Result::Ok(s) => spec_stmt_fold(
                        entries.drop_first(),
                        StmtAcc { not_action: Option::Some(s), ..acc },
                    ),
                }
            }
        } else if k == "Resource"@ {
            if acc.resource is Some {
                Result::Err(msg_duplicate("Resource"@))
            } else {
                match spec_resource_set(v) {
                    Result::Err(e) => Result::Err(e),
                    Result::Ok(s) => spec_stmt_fold(
                        entries.drop_first(),
                        StmtAcc { resource: Option::Some(s), ..acc },
                    ),
                }
            }
        } else if k == "NotResource"@ {
            if acc.not_resource is Some {
                Result::Err(msg_duplicate("NotResource"@))
            } else {
                match spec_resource_set(v) {
                    Result::Err(e) => Result::Err(e),
                    Result::Ok(s) => spec_stmt_fold(
                        entries.drop_first(),
                        StmtAcc { not_resource: Option::Some(s), ..acc },
                    ),
                }
            }
        } else if k == "Condition"@ {
            if acc.condition is Some {
                Result::Err(msg_duplicate("Condition"@))
            } else {
                match spec_decode_condition(v) {
                    Result::Err(e) => Result::Err(e),
                    Result::Ok(cd) => spec_stmt_fold(
                        entries.drop_first(),
                        StmtAcc { condition: Option::Some(cd), ..acc },
                    ),
                }
            }
        } else {
            Result::Err(msg_unknown_statement(k))
        }
    }
}

/// A filled accumulator becomes a statement: the effect is mandatory,
/// every other absent slot is empty.
pub open spec fn stmt_acc_data(acc: StmtAcc, effect: Effect) -> StatementData {
    StatementData {
        sid: acc.sid,
        effect,
        principal: acc.principal,
        not_principal: acc.not_principal,
        action: match acc.action {
            Option::Some(s) => s,
            Option::None => Seq::empty(),
        },
        not_action: match acc.not_action {
            Option::Some(s) => s,
            Option::None => Seq::empty(),
        },
        resource: match acc.resource {
            Option::Some(s) => s,
            Option::None => Seq::empty(),
        },
        not_resource: match acc.not_resource {
            Option::Some(s) => s,
            Option::None => Seq::empty(),
        },
        condition: match acc.condition {
            Option::Some(cd) => cd,
            Option::None => Seq::empty(),
        },
    }
}

/// What decoding a statement yields.
pub open spec fn spec_decode_statement(d: JsonData) -> Result<StatementData, Seq<char>> {
    match d {
        JsonData::Obj(entries) => match spec_stmt_fold(
            entries,
            StmtAcc {
                sid: Option::None,
                effect: Option::None,
                principal: Option::None,
                not_principal: Option::None,
                action: Option::None,
                not_action: Option::None,
                resource: Option::None,
                not_resource: Option::None,
                condition: Option::None,
            },
        ) {
            Result::Err(e) => Result::Err(e),
            Result::Ok(acc) => match acc.effect {
                Option::None => Result::Err(msg_missing_effect()),
                Option::Some(eff) => Result::Ok(stmt_acc_data(acc, eff)),
            },
        },
        _ => Result::Err(msg_expected_map()),
    }
}

/// The slot models of a partially decoded statement.
pub open spec fn stmt_slots(
    sid: Option<String>,
    effect: Option<Effect>,
    principal: Option<Principal>,
    not_principal: Option<Principal>,
    action: Option<OrdSet<Action>>,
    not_action: Option<OrdSet<Action>>,
    resource: Option<OrdSet<Resource>>,
    not_resource: Option<OrdSet<Resource>>,
    condition: Option<Condition>,
) -> StmtAcc {
    StmtAcc {
        sid: match sid {
            Option::Some(s) => Option::Some(s@),
            Option::None => Option::None,
        },
        effect,
        principal: match principal {
            Option::Some(p) => Option::Some(p.model()),
            Option::None => Option::None,
        },
        not_principal: match not_principal {
            Option::Some(p) => Option::Some(p.model()),
            Option::None => Option::None,
        },
        action: match action {
            Option::Some(s) => Option::Some(s.model()),
            Option::None => Option::None,
        },
        not_action: match not_action {
            Option::Some(s) => Option::Some(s.model()),
            Option::None => Option::None,
        },
        resource: match resource {
            Option::Some(s) => Option::Some(s.model()),
            Option::None => Option::None,
        },
        not_resource: match not_resource {
            Option::Some(s) => Option::Some(s.model()),
            Option::None => Option::None,
        },
        condition: match condition {
            Option::Some(c) => Option::Some(c.model()),
            Option::None => Option::None,
        },
    }
}

/// Decode a statement, exactly as `spec_decode_statement` says: strict
/// keys, repeated and unknown keys rejected, the effect mandatory.
#[verifier::loop_isolation(false)]
#[verifier::rlimit(100)]
pub fn decode_statement(v: JsonVal) -> (r: Result<Statement, String>)
    ensures
        match r {
            Result::Ok(s) => s.wf() && spec_decode_statement(v.model()) == Result::<
                StatementData,
                Seq<char>,
            >::Ok(s.model()),
            Result::Err(e) => spec_decode_statement(v.model()) == Result::<
                StatementData,
                Seq<char>,
            >::Err(e@),
        },
{
    let ghost dm = v.model();
    let ghost goal = spec_decode_statement(dm);
    let mut entries = match v {
        JsonVal::Obj(entries) => entries,
        _ => {
            return Result::Err(String::from_str("invalid type: expected a map"));
        },
    };
    let mut sid: Option<String> = Option::None;
    let mut effect: Option<Effect> = Option::None;
    let mut principal: Option<Principal> = Option::None;
    let mut not_principal: Option<Principal> = Option::None;
    let mut action: Option<OrdSet<Action>> = Option::None;
    let mut not_action: Option<OrdSet<Action>> = Option::None;
    let mut resource: Option<OrdSet<Resource>> = Option::None;
    let mut not_resource: Option<OrdSet<Resource>> = Option::None;
    let mut condition: Option<Condition> = Option::None;
    while entries.len() > 0
        invariant
            match principal {
                Option::Some(p) => p.wf(),
                Option::None => true,
            },
            match not_principal {
                Option::Some(p) => p.wf(),
                Option::None => true,
            },
            match action {
                Option::Some(s) => s.wf(),
                Option::None => true,
            },
            match not_action {
                Option::Some(s) => s.wf(),
                Option::None => true,
            },
            match resource {
                Option::Some(s) => s.wf(),
                Option::None => true,
            },
            match not_resource {
                Option::Some(s) => s.wf(),
                Option::None => true,
            },
            match condition {
                Option::Some(c) => c.wf(),
                Option::None => true,
            },
            spec_stmt_fold(
                entry_models(entries@),
                stmt_slots(
                    sid,
                    effect,
                    principal,
                    not_principal,
                    action,
                    not_action,
                    resource,
                    not_resource,
                    condition,
                ),
            ) == spec_stmt_fold(dm->Obj_0, stmt_slots(
                Option::None,
                Option::None,
                Option::None,
                Option::None,
                Option::None,
                Option::None,
                Option::None,
                Option::None,
                Option::None,
            )),
        decreases entries@.len(),
    {
        let ghost before = entries@;
        proof {
            lemma_entry_models_drop(before);
        }
        let kv = entries.remove(0);
        let ghost km = kv.0@;
        let ghost vm = kv.1.model();
        proof {
            assert(entries@ =~= before.drop_first());
            assert(entry_models(entries@) =~= entry_models(before).drop_first());
            assert(entry_models(before)[0] == (km, vm));
        }
        let (k, val) = kv;
        if text_eq(k.as_str(), "Sid") {
            if sid.is_some() {
                let mut m = String::from_str("duplicate field `");
                m.append("Sid");
                m.append("`");
                return Result::Err(m);
            }
            match textfield::unwrap(val) {
                Result::Ok(t) => {
                    sid = Option::Some(t);
                },
                Result::Err(e) => {
                    return Result::Err(e);
                },
            }
        } else if text_eq(k.as_str(), "Effect") {
            if effect.is_some() {
                let mut m = String::from_str("duplicate field `");
                m.append("Effect");
                m.append("`");
                return Result::Err(m);
            }
            match textfield::unwrap(val) {
                Result::Ok(t) => match Effect::parse(t.as_str()) {
                    Result::Ok(e) => {
                        effect = Option::Some(e);
                    },
                    Result::Err(e) => {
                        return Result::Err(e);
                    },
                },
                Result::Err(e) => {
                    return Result::Err(e);
                },
            }
        } else if text_eq(k.as_str(), "Principal") {
            if principal.is_some() {
                let mut m = String::from_str("duplicate field `");
                m.append("Principal");
                m.append("`");
                return Result::Err(m);
            }
            match decode_principal(val) {
                Result::Ok(p) => {
                    principal = Option::Some(p);
                },
                Result::Err(e) => {
                    return Result::Err(e);
                },
            }
        } else if text_eq(k.as_str(), "NotPrincipal") {
            if not_principal.is_some() {
                let mut m = String::from_str("duplicate field `");
                m.append("NotPrincipal");
                m.append("`");
                return Result::Err(m);
            }
            match decode_principal(val) {
                Result::Ok(p) => {
                    not_principal = Option::Some(p);
                },
                Result::Err(e) => {
                    return Result::Err(e);
                },
            }
        } else if text_eq(k.as_str(), "Action") {
            if action.is_some() {
                let mut m = String::from_str("duplicate field `");
                m.append("Action");
                m.append("`");
                return Result::Err(m);
            }
            match decode_action_set(val) {
                Result::Ok(s) => {
                    action = Option::Some(s);
                },
                Result::Err(e) => {
                    return Result::Err(e);
                },
            }
        } else if text_eq(k.as_str(), "NotAction") {
            if not_action.is_some() {
                let mut m = String::from_str("duplicate field `");
                m.append("NotAction");
                m.append("`");
                return Result::Err(m);
            }
            match decode_action_set(val) {
                Result::Ok(s) => {
                    not_action = Option::Some(s);
                },
                Result::Err(e) => {
                    return Result::Err(e);
                },
            }
        } else if text_eq(k.as_str(), "Resource") {
            if resource.is_some() {
                let mut m = String::from_str("duplicate field `");
                m.append("Resource");
                m.append("`");
                return Result::Err(m);
            }
            match decode_resource_set(val) {
                Result::Ok(s) => {
                    resource = Option::Some(s);
                },
                Result::Err(e) => {
                    return Result::Err(e);
                },
            }
        } else if text_eq(k.as_str(), "NotResource") {
            if not_resource.is_some() {
                let mut m = String::from_str("duplicate field `");
                m.append("NotResource");
                m.append("`");
                return Result::Err(m);
            }
            match decode_resource_set(val) {
                Result::Ok(s) => {
                    not_resource = Option::Some(s);
                },
                Result::Err(e) => {
                    return Result::Err(e);
                },
            }
        } else if text_eq(k.as_str(), "Condition") {
            if condition.is_some() {
                let mut m = String::from_str("duplicate field `");
                m.append("Condition");
                m.append("`");
                return Result::Err(m);
            }
            match decode_condition(val) {
                Result::Ok(c) => {
                    condition = Option::Some(c);
                },
                Result::Err(e) => {
                    return Result::Err(e);
                },
            }
        } else {
            let mut m = String::from_str("unknown field `");
            m.append(k.as_str());
            m.append(
                "`, expected one of `Sid`, `Effect`, `Principal`, `NotPrincipal`, `Action`, `NotAction`, `Resource`, `NotResource`, `Condition`",
            );
            return Result::Err(m);
        }
    }
    let eff = match effect {
        Option::Some(e) => e,
        Option::None => {
            return Result::Err(String::from_str("missing field `Effect`"));
        },
    };
    let ghost slots = stmt_slots(
        sid,
        Option::Some(eff),
        principal,
        not_principal,
        action,
        not_action,
        resource,
        not_resource,
        condition,
    );
    let s = Statement {
        sid,
        effect: eff,
        principal,
        not_principal,
        action: match action {
            Option::Some(s) => s,
            Option::None => OrdSet::new(),
        },
        not_action: match not_action {
            Option::Some(s) => s,
            Option::None => OrdSet::new(),
        },
        resource: match resource {
            Option::Some(s) => s,
            Option::None => OrdSet::new(),
        },
        not_resource: match not_resource {
            Option::Some(s) => s,
            Option::None => OrdSet::new(),
        },
        condition: match condition {
            Option::Some(c) => c,
            Option::None => Condition::new(),
        },
    };
    proof {
        assert(s.model().sid == slots.sid);
        assert(s.model().action =~= stmt_acc_data(slots, eff).action);
        assert(s.model().not_action =~= stmt_acc_data(slots, eff).not_action);
        assert(s.model().resource =~= stmt_acc_data(slots, eff).resource);
        assert(s.model().not_resource =~= stmt_acc_data(slots, eff).not_resource);
        assert(s.model().condition =~= stmt_acc_data(slots, eff).condition);
        assert(s.model() == stmt_acc_data(slots, eff));
        assert(goal == Result::<StatementData, Seq<char>>::Ok(stmt_acc_data(slots, eff)));
    }
    Result::Ok(s)
}

/// Decode each element of a scalar-or-list of statements, in order.
pub open spec fn spec_stmt_list_fold(items: Seq<JsonData>, acc: Seq<StatementData>) -> Result<
    Seq<StatementData>,
    Seq<char>,
>
    decreases items.len(),
{
    if items.len() == 0 {
        Result::Ok(acc)
    } else {
        match spec_decode_statement(items[0]) {
            Result::Err(e) => Result::Err(e),
            Result::Ok(s) => spec_stmt_list_fold(items.drop_first(), acc.push(s)),
        }
    }
}

/// What decoding the statement list field yields.
pub open spec fn spec_statement_list(d: JsonData) -> Result<Seq<StatementData>, Seq<char>> {
    spec_stmt_list_fold(invariable::spec_unwrap(d), Seq::empty())
}

/// Decode a scalar-or-list of statements, exactly as `spec_statement_list`
/// says.
#[verifier::loop_isolation(false)]
pub fn decode_statement_list(v: JsonVal) -> (r: Result<Vec<Statement>, String>)
    ensures
        match r {
            Result::Ok(l) => spec_statement_list(v.model()) == Result::<
                Seq<StatementData>,
                Seq<char>,
            >::Ok(stmts_model(l)) && forall|i: int| 0 <= i < l@.len() ==> (#[trigger] l@[i]).wf(),
            Result::Err(e) => spec_statement_list(v.model()) == Result::<
                Seq<StatementData>,
                Seq<char>,
            >::Err(e@),
        },
{
    let ghost dm = v.model();
    let ghost goal = spec_statement_list(dm);
    let mut items = invariable::unwrap(v);
    let mut out: Vec<Statement> = Vec::new();
    proof {
        assert(stmts_model(out) =~= Seq::<StatementData>::empty());
    }
    while items.len() > 0
        invariant
            goal == spec_stmt_list_fold(item_models(items@), stmts_model(out)),
            forall|i: int| 0 <= i < out@.len() ==> (#[trigger] out@[i]).wf(),
        decreases items@.len(),
    {
        let ghost before = items@;
        let ghost acc0 = stmts_model(out);
        proof {
            lemma_item_models_drop(before);
        }
        let x = items.remove(0);
        let ghost xm = x.model();
        proof {
            assert(items@ =~= before.drop_first());
            assert(item_models(items@) =~= item_models(before).drop_first());
            assert(item_models(before)[0] == xm);
        }
        match decode_statement(x) {
            Result::Ok(s) => {
                out.push(s);
                proof {
                    assert(stmts_model(out) =~= acc0.push(out@.last().model()));
                }
            },
            Result::Err(e) => {
                return Result::Err(e);
            },
        }
    }
    Result::Ok(out)
}

/// The slots gathered while walking a policy object.
pub struct PolicyAcc {
    pub version: Option<Seq<char>>,
    pub id: Option<Seq<char>>,
    pub statement: Option<Seq<StatementData>>,
}

/// Walking the entries of a policy object: the three recognized keys fill
/// their slot once, every other key is read over and ignored.
pub open spec fn spec_policy_fold(entries: Seq<(Seq<char>, JsonData)>, acc: PolicyAcc) -> Result<
    PolicyAcc,
    Seq<char>,
>
    decreases entries.len(),
{
    if entries.len() == 0 {
        Result::Ok(acc)
    } else {
        let (k, v) = entries[0];
        if k == "Version"@ {
            if acc.version is Some {
                Result::Err(msg_duplicate("Version"@))
            } else {
                match spec_text_field(v) {
                    Result::Err(e) => Result::Err(e),
                    Result::Ok(t) => spec_policy_fold(
                        entries.drop_first(),
                        PolicyAcc { version: Option::Some(t), ..acc },
                    ),
                }
            }
        } else if k == "Id"@ {
            if acc.id is Some {
                Result::Err(msg_duplicate("Id"@))
            } else {
                match spec_text_field(v) {
                    Result::Err(e) => Result::Err(e),
                    Result::Ok(t) => spec_policy_fold(
                        entries.drop_first(),
                        PolicyAcc { id: Option::Some(t), ..acc },
                    ),
                }
            }
        } else if k == "Statement"@ {
            if acc.statement is Some {
                Result::Err(msg_duplicate("Statement"@))
            } else {
                match spec_statement_list(v) {
                    Result::Err(e) => Result::Err(e),
                    Result::Ok(l) => spec_policy_fold(
                        entries.drop_first(),
                        PolicyAcc { statement: Option::Some(l), ..acc },
                    ),
                }
            }
        } else {
            spec_policy_fold(entries.drop_first(), acc)
        }
    }
}

/// What decoding a whole policy yields: absent fields stay absent, an
/// absent statement list is empty.
pub open spec fn spec_decode_policy(d: JsonData) -> Result<PolicyData, Seq<char>> {
    match d {
        JsonData::Obj(entries) => match spec_policy_fold(
            entries,
            PolicyAcc { version: Option::None, id: Option::None, statement: Option::None },
        ) {
            Result::Err(e) => Result::Err(e),
            Result::Ok(acc) => Result::Ok(
                PolicyData {
                    version: acc.version,
                    id: acc.id,
                    statement: match acc.statement {
                        Option::Some(l) => l,
                        Option::None => Seq::empty(),
                    },
                },
            ),
        },
        _ => Result::Err(msg_expected_map()),
    }
}

/// The slot models of a partially decoded policy.
pub open spec fn policy_slots(
    version: Option<String>,
    id: Option<String>,
    statement: Option<Vec<Statement>>,
) -> PolicyAcc {
    PolicyAcc {
        version: match version {
            Option::Some(s) => Option::Some(s@),
            Option::None => Option::None,
        },
        id: match id {
            Option::Some(s) => Option::Some(s@),
            Option::None => Option::None,
        },
        statement: match statement {
            Option::Some(l) => Option::Some(stmts_model(l)),
            Option::None => Option::None,
        },
    }
}

/// Decode a policy document, exactly as `spec_decode_policy` says.
#[verifier::loop_isolation(false)]
pub fn decode_policy(v: JsonVal) -> (r: Result<Policy, String>)
    ensures
        match r {
            Result::Ok(p) => p.wf() && spec_decode_policy(v.model()) == Result::<
                PolicyData,
                Seq<char>,
            >::Ok(p.model()),
            Result::Err(e) => spec_decode_policy(v.model()) == Result::<
                PolicyData,
                Seq<char>,
            >::Err(e@),
        },
{
    let ghost dm = v.model();
    let ghost goal = spec_decode_policy(dm);
    let mut entries = match v {
        JsonVal::Obj(entries) => entries,
        _ => {
            return Result::Err(String::from_str("invalid type: expected a map"));
        },
    };
    let mut version: Option<String> = Option::None;
    let mut id: Option<String> = Option::None;
    let mut statement: Option<Vec<Statement>> = Option::None;
    while entries.len() > 0
        invariant
            match statement {
                Option::Some(l) => forall|i: int| 0 <= i < l@.len() ==> (#[trigger] l@[i]).wf(),
                Option::None => true,
            },
            spec_policy_fold(entry_models(entries@), policy_slots(version, id, statement))
                == spec_policy_fold(dm->Obj_0, policy_slots(
                Option::None,
                Option::None,
                Option::None,
            )),
        decreases entries@.len(),
    {
        let ghost before = entries@;
        proof {
            lemma_entry_models_drop(before);
        }
        let kv = entries.remove(0);
        let ghost km = kv.0@;
        let ghost vm = kv.1.model();
        proof {
            assert(entries@ =~= before.drop_first());
            assert(entry_models(entries@) =~= entry_models(before).drop_first());
            assert(entry_models(before)[0] == (km, vm));
        }
        let (k, val) = kv;
        if text_eq(k.as_str(), "Version") {
            if version.is_some() {
                let mut m = String::from_str("duplicate field `");
                m.append("Version");
                m.append("`");
                return Result::Err(m);
            }
            match textfield::unwrap(val) {
                Result::Ok(t) => {
                    version = Option::Some(t);
                },
                Result::Err(e) => {
                    return Result::Err(e);
                },
            }
        } else if text_eq(k.as_str(), "Id") {
            if id.is_some() {
                let mut m = String::from_str("duplicate field `");
                m.append("Id");
                m.append("`");
                return Result::Err(m);
            }
            match textfield::unwrap(val) {
                Result::Ok(t) => {
                    id = Option::Some(t);
                },
                Result::Err(e) => {
                    return Result::Err(e);
                },
            }
        } else if text_eq(k.as_str(), "Statement") {
            if statement.is_some() {
                let mut m = String::from_str("duplicate field `");
                m.append("Statement");
                m.append("`");
                return Result::Err(m);
            }
            match decode_statement_list(val) {
                Result::Ok(l) => {
                    statement = Option::Some(l);
                },
                Result::Err(e) => {
                    return Result::Err(e);
                },
            }
        }
    }
    let ghost slots = policy_slots(version, id, statement);
    let p = Policy {
        version,
        id,
        statement: match statement {
            Option::Some(l) => l,
            Option::None => Vec::new(),
        },
    };
    proof {
        assert(p.model().statement =~= (match slots.statement {
            Option::Some(l) => l,
            Option::None => Seq::<StatementData>::empty(),
        }));
        assert(goal == Result::<PolicyData, Seq<char>>::Ok(p.model()));
    }
    Result::Ok(p)
}

} // verus!
