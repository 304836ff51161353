use vstd::prelude::*;
use vstd::string::StringExecFns;
use crate::jsonval::{JsonVal, JsonData, item_models, entry_models};
use crate::arn::{Arn, ArnData, spec_format_arn};
use crate::idents::{Effect, spec_format_effect, Action, ActionData, spec_format_action, Resource,
    ResourceData, spec_format_resource};
use crate::ordset::OrdSet;
use crate::model::{Principal, PrincipalData, CondBlock, Condition, CondData, Statement,
    StatementData, Policy, PolicyData, stmts_model};
use crate::invariable;

verus! {

broadcast use vstd::seq::group_seq_axioms, vstd::std_specs::vec::group_vec_axioms;

/// Each action as its canonical text scalar.
pub open spec fn spec_action_texts(items: Seq<ActionData>) -> Seq<JsonData> {
    items.map_values(|a: ActionData| JsonData::Str(spec_format_action(a)))
}

/// Each resource as its canonical text scalar.
pub open spec fn spec_resource_texts(items: Seq<ResourceData>) -> Seq<JsonData> {
    items.map_values(|a: ResourceData| JsonData::Str(spec_format_resource(a)))
}

/// Each ARN as its canonical text scalar.
pub open spec fn spec_arn_texts(items: Seq<ArnData>) -> Seq<JsonData> {
    items.map_values(|a: ArnData| JsonData::Str(spec_format_arn(a)))
}

/// Each text as a text scalar.
pub open spec fn spec_string_texts(items: Seq<Seq<char>>) -> Seq<JsonData> {
    items.map_values(|t: Seq<char>| JsonData::Str(t))
}

/// What encoding each set-valued field yields: the texts, a singleton
/// collapsed to its bare scalar.
pub open spec fn spec_encode_action_set(items: Seq<ActionData>) -> JsonData {
    invariable::spec_wrap(spec_action_texts(items))
}

pub open spec fn spec_encode_resource_set(items: Seq<ResourceData>) -> JsonData {
    invariable::spec_wrap(spec_resource_texts(items))
}

pub open spec fn spec_encode_arn_set(items: Seq<ArnData>) -> JsonData {
    invariable::spec_wrap(spec_arn_texts(items))
}

pub open spec fn spec_encode_string_set(items: Seq<Seq<char>>) -> JsonData {
    invariable::spec_wrap(spec_string_texts(items))
}

pub open spec fn spec_encode_string_list(items: Seq<Seq<char>>) -> JsonData {
    invariable::spec_wrap(spec_string_texts(items))
}

/// One operator block: each key with its encoded value list, in order.
pub open spec fn spec_cond_block_entries(entries: Seq<(Seq<char>, Seq<Seq<char>>)>) -> Seq<
    (Seq<char>, JsonData),
> {
    entries.map_values(
        |kv: (Seq<char>, Seq<Seq<char>>)| (kv.0, spec_encode_string_list(kv.1)),
    )
}

pub open spec fn spec_encode_cond_block(entries: Seq<(Seq<char>, Seq<Seq<char>>)>) -> JsonData {
    JsonData::Obj(spec_cond_block_entries(entries))
}

/// The whole condition: each operator with its encoded block, in order.
pub open spec fn spec_cond_entries(cd: CondData) -> Seq<(Seq<char>, JsonData)> {
    cd.map_values(
        |kv: (Seq<char>, Seq<(Seq<char>, Seq<Seq<char>>)>)| (kv.0, spec_encode_cond_block(kv.1)),
    )
}

pub open spec fn spec_encode_condition(cd: CondData) -> JsonData {
    JsonData::Obj(spec_cond_entries(cd))
}

/// The entries of an encoded principal: only the non-empty sets, in field
/// order, under the upstream key names.
pub open spec fn spec_principal_entries(p: PrincipalData) -> Seq<(Seq<char>, JsonData)> {
    (if p.aws.len() == 0 {
        Seq::empty()
    } else {
        seq![("AWS"@, spec_encode_arn_set(p.aws))]
    }) + (if p.canonical_user.len() == 0 {
        Seq::empty()
    } else {
        seq![("CanonicalUser"@, spec_encode_string_set(p.canonical_user))]
    }) + (if p.federated.len() == 0 {
        Seq::empty()
    } else {
        seq![("Federated"@, spec_encode_string_set(p.federated))]
    }) + (if p.service.len() == 0 {
        Seq::empty()
    } else {
        seq![("Service"@, spec_encode_string_set(p.service))]
    })
}

pub open spec fn spec_encode_principal(p: PrincipalData) -> JsonData {
    JsonData::Obj(spec_principal_entries(p))
}

/// The entries of an encoded statement: the present fields in canonical
/// field order.
pub open spec fn spec_statement_entries(s: StatementData) -> Seq<(Seq<char>, JsonData)> {
    let e1 = match s.sid {
        Option::Some(t) => Seq::empty().push(("Sid"@, JsonData::Str(t))),
        Option::None => Seq::empty(),
    };
    let e2 = e1.push(("Effect"@, JsonData::Str(spec_format_effect(s.effect))));
    let e3 = match s.principal {
        Option::Some(p) => e2.push(("Principal"@, spec_encode_principal(p))),
        Option::None => e2,
    };
    let e4 = match s.not_principal {
        Option::Some(p) => e3.push(("NotPrincipal"@, spec_encode_principal(p))),
        Option::None => e3,
    };
    let e5 = if s.action.len() == 0 {
        e4
    } else {
        e4.push(("Action"@, spec_encode_action_set(s.action)))
    };
    let e6 = if s.not_action.len() == 0 {
        e5
    } else {
        e5.push(("NotAction"@, spec_encode_action_set(s.not_action)))
    };
    let e7 = if s.resource.len() == 0 {
        e6
    } else {
        e6.push(("Resource"@, spec_encode_resource_set(s.resource)))
    };
    let e8 = if s.not_resource.len() == 0 {
        e7
    } else {
        e7.push(("NotResource"@, spec_encode_resource_set(s.not_resource)))
    };
    if s.condition.len() == 0 {
        e8
    } else {
        e8.push(("Condition"@, spec_encode_condition(s.condition)))
    }
}

pub open spec fn spec_encode_statement(s: StatementData) -> JsonData {
    JsonData::Obj(spec_statement_entries(s))
}

/// Each statement encoded, in list order.
pub open spec fn spec_statement_items(items: Seq<StatementData>) -> Seq<JsonData> {
    items.map_values(|s: StatementData| spec_encode_statement(s))
}

/// The entries of an encoded policy: version, id, then the statement list,
/// each only when present; the statement list always stays a list.
pub open spec fn spec_policy_entries(p: PolicyData) -> Seq<(Seq<char>, JsonData)> {
    (match p.version {
        Option::Some(t) => seq![("Version"@, JsonData::Str(t))],
        Option::None => Seq::empty(),
    }) + (match p.id {
        Option::Some(t) => seq![("Id"@, JsonData::Str(t))],
        Option::None => Seq::empty(),
    }) + (if p.statement.len() == 0 {
        Seq::empty()
    } else {
        seq![("Statement"@, JsonData::Arr(spec_statement_items(p.statement)))]
    })
}

pub open spec fn spec_encode_policy(p: PolicyData) -> JsonData {
    JsonData::Obj(spec_policy_entries(p))
}

/// Encode an action set, exactly as `spec_encode_action_set` says.
#[verifier::loop_isolation(false)]
pub fn encode_action_set(s: &OrdSet<Action>) -> (r: JsonVal)
    ensures
        r.model() == spec_encode_action_set(s.model()),
{
    let mut items: Vec<JsonVal> = Vec::new();
    let n = s.items.len();
    let mut i: usize = 0;
    proof {
        assert(item_models(items@) =~= Seq::<JsonData>::empty());
    }
    while i < n
        invariant
            0 <= i <= n,
            item_models(items@) =~= spec_action_texts(s.model()).take(i as int),
        decreases n - i,
    {
        let ghost prev = items@;
        let v = JsonVal::Str(s.items[i].format());
        let ghost vm = v.model();
        items.push(v);
        proof {
            assert(items@.drop_last() =~= prev);
            assert(items@.last().model() == vm);
            assert(item_models(items@) == item_models(items@.drop_last()).push(
                items@.last().model(),
            ));
            assert(item_models(items@) =~= item_models(prev).push(vm));
            assert(s.items@[i as int].model() == s.model()[i as int]);
            assert(vm == JsonData::Str(spec_format_action(s.model()[i as int])));
            assert(spec_action_texts(s.model())[i as int] == vm);
            assert(item_models(items@) =~= spec_action_texts(s.model()).take(i + 1));
        }
        i += 1;
    }
    proof {
        assert(spec_action_texts(s.model()).take(n as int) =~= spec_action_texts(s.model()));
    }
    invariable::wrap(items)
}

/// Encode a resource set, exactly as `spec_encode_resource_set` says.
#[verifier::loop_isolation(false)]
pub fn encode_resource_set(s: &OrdSet<Resource>) -> (r: JsonVal)
    ensures
        r.model() == spec_encode_resource_set(s.model()),
{
    let mut items: Vec<JsonVal> = Vec::new();
    let n = s.items.len();
    let mut i: usize = 0;
    proof {
        assert(item_models(items@) =~= Seq::<JsonData>::empty());
    }
    while i < n
        invariant
            0 <= i <= n,
            item_models(items@) =~= spec_resource_texts(s.model()).take(i as int),
        decreases n - i,
    {
        let ghost prev = items@;
        let v = JsonVal::Str(s.items[i].format());
        let ghost vm = v.model();
        items.push(v);
        proof {
            assert(items@.drop_last() =~= prev);
            assert(items@.last().model() == vm);
            assert(item_models(items@) == item_models(items@.drop_last()).push(
                items@.last().model(),
            ));
            assert(item_models(items@) =~= item_models(prev).push(vm));
            assert(s.items@[i as int].model() == s.model()[i as int]);
            assert(spec_resource_texts(s.model())[i as int] == vm);
            assert(item_models(items@) =~= spec_resource_texts(s.model()).take(i + 1));
        }
        i += 1;
    }
    proof {
        assert(spec_resource_texts(s.model()).take(n as int) =~= spec_resource_texts(s.model()));
    }
    invariable::wrap(items)
}

/// Encode an ARN set, exactly as `spec_encode_arn_set` says.
#[verifier::loop_isolation(false)]
pub fn encode_arn_set(s: &OrdSet<Arn>) -> (r: JsonVal)
    ensures
        r.model() == spec_encode_arn_set(s.model()),
{
    let mut items: Vec<JsonVal> = Vec::new();
    let n = s.items.len();
    let mut i: usize = 0;
    proof {
        assert(item_models(items@) =~= Seq::<JsonData>::empty());
    }
    while i < n
        invariant
            0 <= i <= n,
            item_models(items@) =~= spec_arn_texts(s.model()).take(i as int),
        decreases n - i,
    {
        let ghost prev = items@;
        let v = JsonVal::Str(s.items[i].format());
        let ghost vm = v.model();
        items.push(v);
        proof {
            assert(items@.drop_last() =~= prev);
            assert(items@.last().model() == vm);
            assert(item_models(items@) == item_models(items@.drop_last()).push(
                items@.last().model(),
            ));
            assert(item_models(items@) =~= item_models(prev).push(vm));
            assert(s.items@[i as int].model() == s.model()[i as int]);
            assert(spec_arn_texts(s.model())[i as int] == vm);
            assert(item_models(items@) =~= spec_arn_texts(s.model()).take(i + 1));
        }
        i += 1;
    }
    proof {
        assert(spec_arn_texts(s.model()).take(n as int) =~= spec_arn_texts(s.model()));
    }
    invariable::wrap(items)
}

/// Encode a text set, exactly as `spec_encode_string_set` says.
#[verifier::loop_isolation(false)]
pub fn encode_string_set(s: &OrdSet<String>) -> (r: JsonVal)
    ensures
        r.model() == spec_encode_string_set(s.model()),
{
    let mut items: Vec<JsonVal> = Vec::new();
    let n = s.items.len();
    let mut i: usize = 0;
    proof {
        assert(item_models(items@) =~= Seq::<JsonData>::empty());
    }
    while i < n
        invariant
            0 <= i <= n,
            item_models(items@) =~= spec_string_texts(s.model()).take(i as int),
        decreases n - i,
    {
        let ghost prev = items@;
        let v = JsonVal::Str(s.items[i].clone());
        let ghost vm = v.model();
        items.push(v);
        proof {
            assert(items@.drop_last() =~= prev);
            assert(items@.last().model() == vm);
            assert(item_models(items@) == item_models(items@.drop_last()).push(
                items@.last().model(),
            ));
            assert(item_models(items@) =~= item_models(prev).push(vm));
            assert(s.items@[i as int]@ == s.model()[i as int]);
            assert(spec_string_texts(s.model())[i as int] == vm);
            assert(item_models(items@) =~= spec_string_texts(s.model()).take(i + 1));
        }
        i += 1;
    }
    proof {
        assert(spec_string_texts(s.model()).take(n as int) =~= spec_string_texts(s.model()));
    }
    invariable::wrap(items)
}

/// Encode a value list of a condition key, order kept.
#[verifier::loop_isolation(false)]
pub fn encode_string_list(vals: &Vec<String>) -> (r: JsonVal)
    ensures
        r.model() == spec_encode_string_list(crate::model::texts_model(*vals)),
{
    let ghost vm = crate::model::texts_model(*vals);
    let mut items: Vec<JsonVal> = Vec::new();
    let n = vals.len();
    let mut i: usize = 0;
    proof {
        assert(item_models(items@) =~= Seq::<JsonData>::empty());
    }
    while i < n
        invariant
            0 <= i <= n,
            item_models(items@) =~= spec_string_texts(vm).take(i as int),
        decreases n - i,
    {
        let ghost prev = items@;
        let v = JsonVal::Str(vals[i].clone());
        let ghost velem = v.model();
        items.push(v);
        proof {
            assert(items@.drop_last() =~= prev);
            assert(items@.last().model() == velem);
            assert(item_models(items@) == item_models(items@.drop_last()).push(
                items@.last().model(),
            ));
            assert(item_models(items@) =~= item_models(prev).push(velem));
            assert(vals@[i as int]@ == vm[i as int]);
            assert(spec_string_texts(vm)[i as int] == velem);
            assert(item_models(items@) =~= spec_string_texts(vm).take(i + 1));
        }
        i += 1;
    }
    proof {
        assert(spec_string_texts(vm).take(n as int) =~= spec_string_texts(vm));
    }
    invariable::wrap(items)
}

/// Encode one operator block, exactly as `spec_encode_cond_block` says.
#[verifier::loop_isolation(false)]
pub fn encode_cond_block(b: &CondBlock) -> (r: JsonVal)
    ensures
        r.model() == spec_encode_cond_block(b.model()),
{
    let mut out: Vec<(String, JsonVal)> = Vec::new();
    let n = b.entries.len();
    let mut i: usize = 0;
    proof {
        assert(entry_models(out@) =~= Seq::<(Seq<char>, JsonData)>::empty());
    }
    while i < n
        invariant
            0 <= i <= n,
            entry_models(out@) =~= spec_cond_block_entries(b.model()).take(i as int),
        decreases n - i,
    {
        let ghost prev = out@;
        let v = encode_string_list(&b.entries[i].1);
        out.push((b.entries[i].0.clone(), v));
        proof {
            assert(out@.drop_last() =~= prev);
            assert(b.model()[i as int] == (b.entries@[i as int].0@, crate::model::texts_model(
                b.entries@[i as int].1,
            )));
            assert(entry_models(out@) =~= spec_cond_block_entries(b.model()).take(i + 1));
        }
        i += 1;
    }
    proof {
        assert(spec_cond_block_entries(b.model()).take(n as int) =~= spec_cond_block_entries(
            b.model(),
        ));
    }
    JsonVal::Obj(out)
}

/// Encode a condition table, exactly as `spec_encode_condition` says.
#[verifier::loop_isolation(false)]
pub fn encode_condition(c: &Condition) -> (r: JsonVal)
    ensures
        r.model() == spec_encode_condition(c.model()),
{
    let mut out: Vec<(String, JsonVal)> = Vec::new();
    let n = c.entries.len();
    let mut i: usize = 0;
    proof {
        assert(entry_models(out@) =~= Seq::<(Seq<char>, JsonData)>::empty());
    }
    while i < n
        invariant
            0 <= i <= n,
            entry_models(out@) =~= spec_cond_entries(c.model()).take(i as int),
        decreases n - i,
    {
        let ghost prev = out@;
        let v = encode_cond_block(&c.entries[i].1);
        out.push((c.entries[i].0.clone(), v));
        proof {
            assert(out@.drop_last() =~= prev);
            assert(c.model()[i as int] == (c.entries@[i as int].0@, c.entries@[i as int]
                .1.model()));
            assert(entry_models(out@) =~= spec_cond_entries(c.model()).take(i + 1));
        }
        i += 1;
    }
    proof {
        assert(spec_cond_entries(c.model()).take(n as int) =~= spec_cond_entries(c.model()));
    }
    JsonVal::Obj(out)
}

/// Encode a principal, exactly as `spec_encode_principal` says.
pub fn encode_principal(p: &Principal) -> (r: JsonVal)
    ensures
        r.model() == spec_encode_principal(p.model()),
{
    let mut out: Vec<(String, JsonVal)> = Vec::new();
    proof {
        assert(entry_models(out@) =~= Seq::<(Seq<char>, JsonData)>::empty());
    }
    if p.aws.len() > 0 {
        let ghost prev = out@;
        let v = encode_arn_set(&p.aws);
        out.push((String::from_str("AWS"), v));
        proof {
            assert(out@.drop_last() =~= prev);
            assert(entry_models(out@) == entry_models(out@.drop_last()).push(
                (out@.last().0@, out@.last().1.model()),
            ));
            assert(entry_models(out@) =~= entry_models(prev).push(
                (out@.last().0@, out@.last().1.model()),
            ));
        }
    }
    if p.canonical_user.len() > 0 {
        let ghost prev = out@;
        let v = encode_string_set(&p.canonical_user);
        out.push((String::from_str("CanonicalUser"), v));
        proof {
            assert(out@.drop_last() =~= prev);
            assert(entry_models(out@) == entry_models(out@.drop_last()).push(
                (out@.last().0@, out@.last().1.model()),
            ));
            assert(entry_models(out@) =~= entry_models(prev).push(
                (out@.last().0@, out@.last().1.model()),
            ));
        }
    }
    if p.federated.len() > 0 {
        let ghost prev = out@;
        let v = encode_string_set(&p.federated);
        out.push((String::from_str("Federated"), v));
        proof {
            assert(out@.drop_last() =~= prev);
            assert(entry_models(out@) == entry_models(out@.drop_last()).push(
                (out@.last().0@, out@.last().1.model()),
            ));
            assert(entry_models(out@) =~= entry_models(prev).push(
                (out@.last().0@, out@.last().1.model()),
            ));
        }
    }
    if p.service.len() > 0 {
        let ghost prev = out@;
        let v = encode_string_set(&p.service);
        out.push((String::from_str("Service"), v));
        proof {
            assert(out@.drop_last() =~= prev);
            assert(entry_models(out@) == entry_models(out@.drop_last()).push(
                (out@.last().0@, out@.last().1.model()),
            ));
            assert(entry_models(out@) =~= entry_models(prev).push(
                (out@.last().0@, out@.last().1.model()),
            ));
        }
    }
    proof {
        assert(entry_models(out@) =~= spec_principal_entries(p.model()));
    }
    JsonVal::Obj(out)
}

/// Encode a statement, exactly as `spec_encode_statement` says: the
/// present fields in canonical order, empty sets left out.
#[verifier::rlimit(100)]
pub fn encode_statement(s: &Statement) -> (r: JsonVal)
    ensures
        r.model() == spec_encode_statement(s.model()),
{
    let mut out: Vec<(String, JsonVal)> = Vec::new();
    proof {
        assert(entry_models(out@) =~= Seq::<(Seq<char>, JsonData)>::empty());
    }
    match &s.sid {
        Option::Some(t) => {
            let ghost prev = out@;
            out.push((String::from_str("Sid"), JsonVal::Str(t.clone())));
            proof {
                assert(out@.drop_last() =~= prev);
                assert(entry_models(out@) == entry_models(out@.drop_last()).push(
                    (out@.last().0@, out@.last().1.model()),
                ));
                assert(entry_models(out@) =~= entry_models(prev).push(
                    (out@.last().0@, out@.last().1.model()),
                ));
            }
        },
        Option::None => {},
    }
    let ghost g1 = entry_models(out@);
    proof {
        assert(g1 =~= (match s.model().sid {
            Option::Some(t) => Seq::<(Seq<char>, JsonData)>::empty().push(
                ("Sid"@, JsonData::Str(t)),
            ),
            Option::None => Seq::<(Seq<char>, JsonData)>::empty(),
        }));
    }
    let ghost prev = out@;
    out.push((String::from_str("Effect"), JsonVal::Str(s.effect.format())));
    proof {
        assert(out@.drop_last() =~= prev);
        assert(entry_models(out@) == entry_models(out@.drop_last()).push(
            (out@.last().0@, out@.last().1.model()),
        ));
        assert(entry_models(out@) =~= entry_models(prev).push(
            (out@.last().0@, out@.last().1.model()),
        ));
    }
    let ghost g2 = entry_models(out@);
    proof {
        assert(g2 =~= g1.push(("Effect"@, JsonData::Str(spec_format_effect(s.model().effect)))));
    }
    match &s.principal {
        Option::Some(p) => {
            let ghost prev = out@;
            let v = encode_principal(p);
            out.push((String::from_str("Principal"), v));
            proof {
                assert(out@.drop_last() =~= prev);
                assert(entry_models(out@) == entry_models(out@.drop_last()).push(
                    (out@.last().0@, out@.last().1.model()),
                ));
                assert(entry_models(out@) =~= entry_models(prev).push(
                    (out@.last().0@, out@.last().1.model()),
                ));
            }
        },
        Option::None => {},
    }
    let ghost g3 = entry_models(out@);
    proof {
        assert(g3 =~= (match s.model().principal {
            Option::Some(p) => g2.push(("Principal"@, spec_encode_principal(p))),
            Option::None => g2,
        }));
    }
    match &s.not_principal {
        Option::Some(p) => {
            let ghost prev = out@;
            let v = encode_principal(p);
            out.push((String::from_str("NotPrincipal"), v));
            proof {
                assert(out@.drop_last() =~= prev);
                assert(entry_models(out@) == entry_models(out@.drop_last()).push(
                    (out@.last().0@, out@.last().1.model()),
                ));
                assert(entry_models(out@) =~= entry_models(prev).push(
                    (out@.last().0@, out@.last().1.model()),
                ));
            }
        },
        Option::None => {},
    }
    let ghost g4 = entry_models(out@);
    proof {
        assert(g4 =~= (match s.model().not_principal {
            Option::Some(p) => g3.push(("NotPrincipal"@, spec_encode_principal(p))),
            Option::None => g3,
        }));
    }
    if s.action.len() > 0 {
        let ghost prev = out@;
        let v = encode_action_set(&s.action);
        out.push((String::from_str("Action"), v));
        proof {
            assert(out@.drop_last() =~= prev);
            assert(entry_models(out@) == entry_models(out@.drop_last()).push(
                (out@.last().0@, out@.last().1.model()),
            ));
            assert(entry_models(out@) =~= entry_models(prev).push(
                (out@.last().0@, out@.last().1.model()),
            ));
        }
    }
    let ghost g5 = entry_models(out@);
    proof {
        assert(g5 =~= (if s.model().action.len() == 0 {
            g4
        } else {
            g4.push(("Action"@, spec_encode_action_set(s.model().action)))
        }));
    }
    if s.not_action.len() > 0 {
        let ghost prev = out@;
        let v = encode_action_set(&s.not_action);
        out.push((String::from_str("NotAction"), v));
        proof {
            assert(out@.drop_last() =~= prev);
            assert(entry_models(out@) == entry_models(out@.drop_last()).push(
                (out@.last().0@, out@.last().1.model()),
            ));
            assert(entry_models(out@) =~= entry_models(prev).push(
                (out@.last().0@, out@.last().1.model()),
            ));
        }
    }
    let ghost g6 = entry_models(out@);
    proof {
        assert(g6 =~= (if s.model().not_action.len() == 0 {
            g5
        } else {
            g5.push(("NotAction"@, spec_encode_action_set(s.model().not_action)))
        }));
    }
    if s.resource.len() > 0 {
        let ghost prev = out@;
        let v = encode_resource_set(&s.resource);
        out.push((String::from_str("Resource"), v));
        proof {
            assert(out@.drop_last() =~= prev);
            assert(entry_models(out@) == entry_models(out@.drop_last()).push(
                (out@.last().0@, out@.last().1.model()),
            ));
            assert(entry_models(out@) =~= entry_models(prev).push(
                (out@.last().0@, out@.last().1.model()),
            ));
        }
    }
    let ghost g7 = entry_models(out@);
    proof {
        assert(g7 =~= (if s.model().resource.len() == 0 {
            g6
        } else {
            g6.push(("Resource"@, spec_encode_resource_set(s.model().resource)))
        }));
    }
    if s.not_resource.len() > 0 {
        let ghost prev = out@;
        let v = encode_resource_set(&s.not_resource);
        out.push((String::from_str("NotResource"), v));
        proof {
            assert(out@.drop_last() =~= prev);
            assert(entry_models(out@) == entry_models(out@.drop_last()).push(
                (out@.last().0@, out@.last().1.model()),
            ));
            assert(entry_models(out@) =~= entry_models(prev).push(
                (out@.last().0@, out@.last().1.model()),
            ));
        }
    }
    let ghost g8 = entry_models(out@);
    proof {
        assert(g8 =~= (if s.model().not_resource.len() == 0 {
            g7
        } else {
            g7.push(("NotResource"@, spec_encode_resource_set(s.model().not_resource)))
        }));
    }
    if !s.condition.is_empty() {
        let ghost prev = out@;
        let v = encode_condition(&s.condition);
        out.push((String::from_str("Condition"), v));
        proof {
            assert(out@.drop_last() =~= prev);
            assert(entry_models(out@) == entry_models(out@.drop_last()).push(
                (out@.last().0@, out@.last().1.model()),
            ));
            assert(entry_models(out@) =~= entry_models(prev).push(
                (out@.last().0@, out@.last().1.model()),
            ));
        }
    }
    proof {
        let g9 = entry_models(out@);
        assert(g9 =~= (if s.model().condition.len() == 0 {
            g8
        } else {
            g8.push(("Condition"@, spec_encode_condition(s.model().condition)))
        }));
        assert(entry_models(out@) =~= spec_statement_entries(s.model()));
    }
    JsonVal::Obj(out)
}

/// Encode a policy, exactly as `spec_encode_policy` says: the statement
/// list stays a list whatever its length.
#[verifier::loop_isolation(false)]
pub fn encode_policy(p: &Policy) -> (r: JsonVal)
    ensures
        r.model() == spec_encode_policy(p.model()),
{
    let mut out: Vec<(String, JsonVal)> = Vec::new();
    proof {
        assert(entry_models(out@) =~= Seq::<(Seq<char>, JsonData)>::empty());
    }
    match &p.version {
        Option::Some(t) => {
            let ghost prev = out@;
            out.push((String::from_str("Version"), JsonVal::Str(t.clone())));
            proof {
                assert(out@.drop_last() =~= prev);
                assert(entry_models(out@) == entry_models(out@.drop_last()).push(
                    (out@.last().0@, out@.last().1.model()),
                ));
                assert(entry_models(out@) =~= entry_models(prev).push(
                    (out@.last().0@, out@.last().1.model()),
                ));
            }
        },
        Option::None => {},
    }
    match &p.id {
        Option::Some(t) => {
            let ghost prev = out@;
            out.push((String::from_str("Id"), JsonVal::Str(t.clone())));
            proof {
                assert(out@.drop_last() =~= prev);
                assert(entry_models(out@) == entry_models(out@.drop_last()).push(
                    (out@.last().0@, out@.last().1.model()),
                ));
                assert(entry_models(out@) =~= entry_models(prev).push(
                    (out@.last().0@, out@.last().1.model()),
                ));
            }
        },
        Option::None => {},
    }
    if p.statement.len() > 0 {
        let mut items: Vec<JsonVal> = Vec::new();
        let n = p.statement.len();
        let mut i: usize = 0;
        proof {
            assert(item_models(items@) =~= Seq::<JsonData>::empty());
        }
        while i < n
            invariant
                0 <= i <= n,
                item_models(items@) =~= spec_statement_items(stmts_model(p.statement)).take(
                    i as int,
                ),
            decreases n - i,
        {
            let ghost prevs = items@;
            let v = encode_statement(&p.statement[i]);
            items.push(v);
            proof {
                assert(items@.drop_last() =~= prevs);
                assert(p.statement@[i as int].model() == stmts_model(p.statement)[i as int]);
                assert(item_models(items@) =~= spec_statement_items(stmts_model(p.statement)).take(
                    i + 1,
                ));
            }
            i += 1;
        }
        proof {
            assert(spec_statement_items(stmts_model(p.statement)).take(n as int)
                =~= spec_statement_items(stmts_model(p.statement)));
        }
        let ghost prev = out@;
        out.push((String::from_str("Statement"), JsonVal::Arr(items)));
        proof {
            assert(out@.drop_last() =~= prev);
            assert(entry_models(out@) == entry_models(out@.drop_last()).push(
                (out@.last().0@, out@.last().1.model()),
            ));
            assert(entry_models(out@) =~= entry_models(prev).push(
                (out@.last().0@, out@.last().1.model()),
            ));
        }
    }
    proof {
        assert(entry_models(out@) =~= spec_policy_entries(p.model()));
    }
    JsonVal::Obj(out)
}

} // verus!
