use vstd::prelude::*;
use crate::cmp3::{Cmp, lawful_cmp};
use crate::jsonval::JsonData;
use crate::seqcmp::{text_cmp, lemma_text_cmp_lawful};
use crate::arn::{ArnData, arn_cmp, arn_data_valid, lemma_arn_cmp_lawful, lemma_arn_format_parses,
    spec_format_arn, lemma_parse_arn_valid};
use crate::idents::{ActionData, action_cmp, action_data_valid, lemma_action_cmp_lawful,
    lemma_action_format_parses, spec_format_action, ResourceData, resource_cmp,
    resource_data_valid, lemma_resource_cmp_lawful, lemma_resource_format_parses,
    spec_format_resource, lemma_parse_action_valid, lemma_parse_resource_valid};
use crate::ordset::{strictly_sorted, lemma_set_insert_append, lemma_set_insert_sorted,
    lemma_set_insert_elems, spec_set_insert};
use crate::decode::{spec_set_fold, spec_action_set, spec_resource_set, spec_arn_set,
    spec_string_set, spec_action_elem, spec_resource_elem, spec_arn_elem, spec_string_elem,
    spec_string_list, spec_string_list_fold, spec_cond_block_fold, spec_decode_cond_block,
    spec_cond_fold, spec_decode_condition, spec_principal_fold, spec_decode_principal, PrincAcc,
    princ_acc_data, spec_stmt_fold, spec_decode_statement, StmtAcc, stmt_acc_data,
    spec_effect_field, spec_stmt_list_fold, spec_statement_list, spec_policy_fold,
    spec_decode_policy, PolicyAcc};
use crate::textfield::spec_text_field;
use crate::encode::{spec_action_texts, spec_resource_texts, spec_arn_texts, spec_string_texts,
    spec_encode_action_set, spec_encode_resource_set, spec_encode_arn_set, spec_encode_string_set,
    spec_encode_string_list, spec_cond_block_entries, spec_encode_cond_block, spec_cond_entries,
    spec_encode_condition, spec_principal_entries, spec_encode_principal, spec_statement_entries,
    spec_encode_statement, spec_statement_items, spec_policy_entries, spec_encode_policy};
use crate::canon::{spec_canonical_policy, spec_canonicalize};
use crate::sortstmt::{spec_sort_stmts, stmts_sorted, lemma_sort_stmts_sorted,
    lemma_sort_stmts_idempotent};
use crate::idents::{Effect, spec_parse_effect, spec_format_effect};
use crate::canon::cond_data_wf;
use crate::model::{CondData, spec_upsert, PrincipalData, StatementData, PolicyData,
    lemma_upsert_wf, lemma_upsert_keys};
use crate::invariable;

verus! {

broadcast use vstd::seq::group_seq_axioms;

/// Folding the element parser over texts that parse back elementwise to a
/// strictly increasing collection rebuilds that collection exactly.
proof fn lemma_set_fold_rebuild<M>(
    pe: spec_fn(JsonData) -> Result<M, Seq<char>>,
    c: spec_fn(M, M) -> Cmp,
    texts: Seq<JsonData>,
    items: Seq<M>,
    k: int,
)
    requires
        lawful_cmp(c),
        strictly_sorted(c, items),
        texts.len() == items.len(),
        forall|i: int| 0 <= i < items.len() ==> pe(#[trigger] texts[i]) == Result::<
            M,
            Seq<char>,
        >::Ok(items[i]),
        0 <= k <= items.len(),
    ensures
        spec_set_fold(pe, c, texts.skip(k), items.take(k)) == Result::<Seq<M>, Seq<char>>::Ok(
            items,
        ),
    decreases items.len() - k,
{
    if k == items.len() {
        assert(texts.skip(k).len() == 0);
        assert(items.take(k) =~= items);
    } else {
        assert(texts.skip(k)[0] == texts[k]);
        assert(pe(texts[k]) == Result::<M, Seq<char>>::Ok(items[k]));
        assert forall|m: int| 0 <= m < items.take(k).len() implies c(
            #[trigger] items.take(k)[m],
            items[k],
        ) is Lt by {
            assert(items.take(k)[m] == items[m]);
        }
        lemma_set_insert_append(c, items.take(k), items[k]);
        assert(items.take(k) + seq![items[k]] =~= items.take(k + 1));
        assert(texts.skip(k).drop_first() =~= texts.skip(k + 1));
        lemma_set_fold_rebuild(pe, c, texts, items, k + 1);
    }
}

/// The shared head of the four set round trips: unwrapping the wrapped
/// texts gives the texts back, since every element is a text scalar.
proof fn lemma_unwrap_wrapped_texts(texts: Seq<JsonData>)
    requires
        forall|i: int| 0 <= i < texts.len() ==> (#[trigger] texts[i]) is Str,
    ensures
        invariable::spec_unwrap(invariable::spec_wrap(texts)) == texts,
{
    invariable::lemma_wrap_unwrap(texts);
}

/// Encoding an action set field and decoding it yields the set back: the
/// scalar-or-list codec and the action grammar invert each other on every
/// canonical set. The decoder only ever produces such sets: strictly
/// ordered, with colon-free service parts.
pub proof fn lemma_action_set_roundtrip(items: Seq<ActionData>)
    requires
        strictly_sorted(|a: ActionData, b: ActionData| action_cmp(a, b), items),
        forall|i: int| 0 <= i < items.len() ==> action_data_valid(#[trigger] items[i]),
    ensures
        spec_action_set(spec_encode_action_set(items)) == Result::<
            Seq<ActionData>,
            Seq<char>,
        >::Ok(items),
{
    let pe = |x: JsonData| spec_action_elem(x);
    let c = |a: ActionData, b: ActionData| action_cmp(a, b);
    let texts = spec_action_texts(items);
    lemma_action_cmp_lawful();
    lemma_unwrap_wrapped_texts(texts);
    assert forall|i: int| 0 <= i < items.len() implies pe(#[trigger] texts[i]) == Result::<
        ActionData,
        Seq<char>,
    >::Ok(items[i]) by {
        lemma_action_format_parses(items[i]);
        assert(texts[i] == JsonData::Str(spec_format_action(items[i])));
    }
    lemma_set_fold_rebuild(pe, c, texts, items, 0);
    assert(texts.skip(0) =~= texts);
    assert(items.take(0) =~= Seq::<ActionData>::empty());
}

/// Encoding a resource set field and decoding it yields the set back.
pub proof fn lemma_resource_set_roundtrip(items: Seq<ResourceData>)
    requires
        strictly_sorted(|a: ResourceData, b: ResourceData| resource_cmp(a, b), items),
        forall|i: int| 0 <= i < items.len() ==> resource_data_valid(#[trigger] items[i]),
    ensures
        spec_resource_set(spec_encode_resource_set(items)) == Result::<
            Seq<ResourceData>,
            Seq<char>,
        >::Ok(items),
{
    let pe = |x: JsonData| spec_resource_elem(x);
    let c = |a: ResourceData, b: ResourceData| resource_cmp(a, b);
    let texts = spec_resource_texts(items);
    lemma_resource_cmp_lawful();
    lemma_unwrap_wrapped_texts(texts);
    assert forall|i: int| 0 <= i < items.len() implies pe(#[trigger] texts[i]) == Result::<
        ResourceData,
        Seq<char>,
    >::Ok(items[i]) by {
        lemma_resource_format_parses(items[i]);
        assert(texts[i] == JsonData::Str(spec_format_resource(items[i])));
    }
    lemma_set_fold_rebuild(pe, c, texts, items, 0);
    assert(texts.skip(0) =~= texts);
    assert(items.take(0) =~= Seq::<ResourceData>::empty());
}

/// Encoding a principal's ARN set field and decoding it yields the set
/// back: the twelve-digit shorthand never reappears, since the canonical
/// text is always the full form.
pub proof fn lemma_arn_set_roundtrip(items: Seq<ArnData>)
    requires
        strictly_sorted(|a: ArnData, b: ArnData| arn_cmp(a, b), items),
        forall|i: int| 0 <= i < items.len() ==> arn_data_valid(#[trigger] items[i]),
    ensures
        spec_arn_set(spec_encode_arn_set(items)) == Result::<Seq<ArnData>, Seq<char>>::Ok(items),
{
    let pe = |x: JsonData| spec_arn_elem(x);
    let c = |a: ArnData, b: ArnData| arn_cmp(a, b);
    let texts = spec_arn_texts(items);
    lemma_arn_cmp_lawful();
    lemma_unwrap_wrapped_texts(texts);
    assert forall|i: int| 0 <= i < items.len() implies pe(#[trigger] texts[i]) == Result::<
        ArnData,
        Seq<char>,
    >::Ok(items[i]) by {
        lemma_arn_format_parses(items[i]);
        assert(texts[i] == JsonData::Str(spec_format_arn(items[i])));
    }
    lemma_set_fold_rebuild(pe, c, texts, items, 0);
    assert(texts.skip(0) =~= texts);
    assert(items.take(0) =~= Seq::<ArnData>::empty());
}

/// Encoding a text set field and decoding it yields the set back.
pub proof fn lemma_string_set_roundtrip(items: Seq<Seq<char>>)
    requires
        strictly_sorted(|a: Seq<char>, b: Seq<char>| text_cmp(a, b), items),
    ensures
        spec_string_set(spec_encode_string_set(items)) == Result::<
            Seq<Seq<char>>,
            Seq<char>,
        >::Ok(items),
{
    let pe = |x: JsonData| spec_string_elem(x);
    let c = |a: Seq<char>, b: Seq<char>| text_cmp(a, b);
    let texts = spec_string_texts(items);
    lemma_text_cmp_lawful();
    lemma_unwrap_wrapped_texts(texts);
    assert forall|i: int| 0 <= i < items.len() implies pe(#[trigger] texts[i]) == Result::<
        Seq<char>,
        Seq<char>,
    >::Ok(items[i]) by {
        assert(texts[i] == JsonData::Str(items[i]));
    }
    lemma_set_fold_rebuild(pe, c, texts, items, 0);
    assert(texts.skip(0) =~= texts);
    assert(items.take(0) =~= Seq::<Seq<char>>::empty());
}


/// Encoding a value list and decoding it yields the list back, order and
/// repetitions kept.
pub proof fn lemma_string_list_roundtrip(vals: Seq<Seq<char>>)
    ensures
        spec_string_list(spec_encode_string_list(vals)) == Result::<
            Seq<Seq<char>>,
            Seq<char>,
        >::Ok(vals),
{
    let texts = spec_string_texts(vals);
    lemma_unwrap_wrapped_texts(texts);
    lemma_string_list_fold_rebuild(texts, vals, 0);
    assert(texts.skip(0) =~= texts);
    assert(vals.take(0) =~= Seq::<Seq<char>>::empty());
}

proof fn lemma_string_list_fold_rebuild(texts: Seq<JsonData>, vals: Seq<Seq<char>>, k: int)
    requires
        texts.len() == vals.len(),
        forall|i: int| 0 <= i < vals.len() ==> (#[trigger] texts[i]) == JsonData::Str(vals[i]),
        0 <= k <= vals.len(),
    ensures
        spec_string_list_fold(texts.skip(k), vals.take(k)) == Result::<
            Seq<Seq<char>>,
            Seq<char>,
        >::Ok(vals),
    decreases vals.len() - k,
{
    if k == vals.len() {
        assert(texts.skip(k).len() == 0);
        assert(vals.take(k) =~= vals);
    } else {
        assert(texts.skip(k)[0] == texts[k]);
        assert(vals.take(k).push(vals[k]) =~= vals.take(k + 1));
        assert(texts.skip(k).drop_first() =~= texts.skip(k + 1));
        lemma_string_list_fold_rebuild(texts, vals, k + 1);
    }
}

/// Binding a key absent from the list appends the pair.
proof fn lemma_upsert_append<V>(s: Seq<(Seq<char>, V)>, k: Seq<char>, x: V)
    requires
        forall|m: int| 0 <= m < s.len() ==> (#[trigger] s[m]).0 != k,
    ensures
        spec_upsert(s, k, x) =~= s + seq![(k, x)],
    decreases s.len(),
{
    if s.len() > 0 {
        assert(s[0].0 != k);
        assert forall|m: int| 0 <= m < s.drop_first().len() implies (
        #[trigger] s.drop_first()[m]).0 != k by {
            assert(s.drop_first()[m] == s[m + 1]);
        }
        lemma_upsert_append(s.drop_first(), k, x);
    }
}

/// Encoding one operator block and decoding it yields the block back,
/// provided its keys are pairwise distinct — which every decoded block is.
pub proof fn lemma_cond_block_roundtrip(entries: Seq<(Seq<char>, Seq<Seq<char>>)>)
    requires
        forall|i: int, j: int|
            0 <= i < j < entries.len() ==> (#[trigger] entries[i]).0 != (#[trigger] entries[j]).0,
    ensures
        spec_decode_cond_block(spec_encode_cond_block(entries)) == Result::<
            Seq<(Seq<char>, Seq<Seq<char>>)>,
            Seq<char>,
        >::Ok(entries),
{
    lemma_cond_block_fold_rebuild(entries, 0);
    assert(spec_cond_block_entries(entries).skip(0) =~= spec_cond_block_entries(entries));
    assert(entries.take(0) =~= Seq::<(Seq<char>, Seq<Seq<char>>)>::empty());
}

proof fn lemma_cond_block_fold_rebuild(entries: Seq<(Seq<char>, Seq<Seq<char>>)>, k: int)
    requires
        forall|i: int, j: int|
            0 <= i < j < entries.len() ==> (#[trigger] entries[i]).0 != (#[trigger] entries[j]).0,
        0 <= k <= entries.len(),
    ensures
        spec_cond_block_fold(spec_cond_block_entries(entries).skip(k), entries.take(k))
            == Result::<Seq<(Seq<char>, Seq<Seq<char>>)>, Seq<char>>::Ok(entries),
    decreases entries.len() - k,
{
    let enc = spec_cond_block_entries(entries);
    if k == entries.len() {
        assert(enc.skip(k).len() == 0);
        assert(entries.take(k) =~= entries);
    } else {
        assert(enc.skip(k)[0] == enc[k]);
        assert(enc[k] == (entries[k].0, spec_encode_string_list(entries[k].1)));
        lemma_string_list_roundtrip(entries[k].1);
        assert forall|m: int| 0 <= m < entries.take(k).len() implies (
        #[trigger] entries.take(k)[m]).0 != entries[k].0 by {
            assert(entries.take(k)[m] == entries[m]);
        }
        lemma_upsert_append(entries.take(k), entries[k].0, entries[k].1);
        assert(entries.take(k) + seq![(entries[k].0, entries[k].1)] =~= entries.take(k + 1));
        assert(enc.skip(k).drop_first() =~= enc.skip(k + 1));
        lemma_cond_block_fold_rebuild(entries, k + 1);
    }
}

/// Encoding a whole condition table and decoding it yields the table
/// back, provided its operator names are pairwise distinct and each block
/// has pairwise distinct keys — which every decoded table is.
pub proof fn lemma_condition_roundtrip(cd: CondData)
    requires
        forall|i: int, j: int|
            0 <= i < j < cd.len() ==> (#[trigger] cd[i]).0 != (#[trigger] cd[j]).0,
        forall|i: int, p: int, q: int|
            0 <= i < cd.len() && 0 <= p < q < (#[trigger] cd[i]).1.len() ==> (
            #[trigger] cd[i].1[p]).0 != (#[trigger] cd[i].1[q]).0,
    ensures
        spec_decode_condition(spec_encode_condition(cd)) == Result::<CondData, Seq<char>>::Ok(cd),
{
    lemma_cond_fold_rebuild(cd, 0);
    assert(spec_cond_entries(cd).skip(0) =~= spec_cond_entries(cd));
    assert(cd.take(0) =~= Seq::<(Seq<char>, Seq<(Seq<char>, Seq<Seq<char>>)>)>::empty());
}

proof fn lemma_cond_fold_rebuild(cd: CondData, k: int)
    requires
        forall|i: int, j: int|
            0 <= i < j < cd.len() ==> (#[trigger] cd[i]).0 != (#[trigger] cd[j]).0,
        forall|i: int, p: int, q: int|
            0 <= i < cd.len() && 0 <= p < q < (#[trigger] cd[i]).1.len() ==> (
            #[trigger] cd[i].1[p]).0 != (#[trigger] cd[i].1[q]).0,
        0 <= k <= cd.len(),
    ensures
        spec_cond_fold(spec_cond_entries(cd).skip(k), cd.take(k)) == Result::<
            CondData,
            Seq<char>,
        >::Ok(cd),
    decreases cd.len() - k,
{
    let enc = spec_cond_entries(cd);
    if k == cd.len() {
        assert(enc.skip(k).len() == 0);
        assert(cd.take(k) =~= cd);
    } else {
        assert(enc.skip(k)[0] == enc[k]);
        assert(enc[k] == (cd[k].0, spec_encode_cond_block(cd[k].1)));
        assert forall|p: int, q: int| 0 <= p < q < cd[k].1.len() implies (
        #[trigger] cd[k].1[p]).0 != (#[trigger] cd[k].1[q]).0 by {}
        lemma_cond_block_roundtrip(cd[k].1);
        assert forall|m: int| 0 <= m < cd.take(k).len() implies (#[trigger] cd.take(k)[m]).0
            != cd[k].0 by {
            assert(cd.take(k)[m] == cd[m]);
        }
        lemma_upsert_append(cd.take(k), cd[k].0, cd[k].1);
        assert(cd.take(k) + seq![(cd[k].0, cd[k].1)] =~= cd.take(k + 1));
        assert(enc.skip(k).drop_first() =~= enc.skip(k + 1));
        lemma_cond_fold_rebuild(cd, k + 1);
    }
}


/// A principal model in canonical shape: each set strictly ordered, each
/// ARN valid.
pub open spec fn principal_data_canonical(p: PrincipalData) -> bool {
    &&& strictly_sorted(|a: ArnData, b: ArnData| arn_cmp(a, b), p.aws)
    &&& forall|i: int| 0 <= i < p.aws.len() ==> arn_data_valid(#[trigger] p.aws[i])
    &&& strictly_sorted(|a: Seq<char>, b: Seq<char>| text_cmp(a, b), p.canonical_user)
    &&& strictly_sorted(|a: Seq<char>, b: Seq<char>| text_cmp(a, b), p.federated)
    &&& strictly_sorted(|a: Seq<char>, b: Seq<char>| text_cmp(a, b), p.service)
}

/// Walking concatenated entries is walking each part in turn.
proof fn lemma_principal_fold_append(
    es1: Seq<(Seq<char>, JsonData)>,
    es2: Seq<(Seq<char>, JsonData)>,
    acc: PrincAcc,
)
    ensures
        spec_principal_fold(es1 + es2, acc) == (match spec_principal_fold(es1, acc) {
            Result::Err(e) => Result::<PrincAcc, Seq<char>>::Err(e),
            Result::Ok(a) => spec_principal_fold(es2, a),
        }),
    decreases es1.len(),
{
    if es1.len() == 0 {
        assert(es1 + es2 =~= es2);
    } else {
        assert((es1 + es2)[0] == es1[0]);
        assert((es1 + es2).drop_first() =~= es1.drop_first() + es2);
        lemma_principal_fold_append(es1.drop_first(), es2, acc);
        let (k, v) = es1[0];
        if k == "AWS"@ && !(acc.aws is Some) {
            match spec_arn_set(v) {
                Result::Err(_) => {},
                Result::Ok(sv) => {
                    lemma_principal_fold_append(
                        es1.drop_first(),
                        es2,
                        PrincAcc { aws: Option::Some(sv), ..acc },
                    );
                },
            }
        } else if k == "CanonicalUser"@ && !(acc.canonical_user is Some) {
            match spec_string_set(v) {
                Result::Err(_) => {},
                Result::Ok(sv) => {
                    lemma_principal_fold_append(
                        es1.drop_first(),
                        es2,
                        PrincAcc { canonical_user: Option::Some(sv), ..acc },
                    );
                },
            }
        } else if k == "Federated"@ && !(acc.federated is Some) {
            match spec_string_set(v) {
                Result::Err(_) => {},
                Result::Ok(sv) => {
                    lemma_principal_fold_append(
                        es1.drop_first(),
                        es2,
                        PrincAcc { federated: Option::Some(sv), ..acc },
                    );
                },
            }
        } else if k == "Service"@ && !(acc.service is Some) {
            match spec_string_set(v) {
                Result::Err(_) => {},
                Result::Ok(sv) => {
                    lemma_principal_fold_append(
                        es1.drop_first(),
                        es2,
                        PrincAcc { service: Option::Some(sv), ..acc },
                    );
                },
            }
        }
    }
}

/// Encoding a principal and decoding it yields the principal back,
/// provided it is in canonical shape — which every decoded principal is.
pub proof fn lemma_principal_roundtrip(p: PrincipalData)
    requires
        principal_data_canonical(p),
    ensures
        spec_decode_principal(spec_encode_principal(p)) == Result::<
            PrincipalData,
            Seq<char>,
        >::Ok(p),
{
    reveal_with_fuel(spec_principal_fold, 3);
    reveal_strlit("AWS");
    reveal_strlit("CanonicalUser");
    reveal_strlit("Federated");
    reveal_strlit("Service");
    assert("AWS"@.len() == 3);
    assert("CanonicalUser"@.len() == 13);
    assert("Federated"@.len() == 9);
    assert("Service"@.len() == 7);
    let acc0 = PrincAcc {
        aws: Option::None,
        canonical_user: Option::None,
        federated: Option::None,
        service: Option::None,
    };
    let ea = if p.aws.len() == 0 {
        Seq::<(Seq<char>, JsonData)>::empty()
    } else {
        seq![("AWS"@, spec_encode_arn_set(p.aws))]
    };
    let eb = if p.canonical_user.len() == 0 {
        Seq::<(Seq<char>, JsonData)>::empty()
    } else {
        seq![("CanonicalUser"@, spec_encode_string_set(p.canonical_user))]
    };
    let ec = if p.federated.len() == 0 {
        Seq::<(Seq<char>, JsonData)>::empty()
    } else {
        seq![("Federated"@, spec_encode_string_set(p.federated))]
    };
    let ed = if p.service.len() == 0 {
        Seq::<(Seq<char>, JsonData)>::empty()
    } else {
        seq![("Service"@, spec_encode_string_set(p.service))]
    };
    assert(spec_principal_entries(p) == ((ea + eb) + ec) + ed);
    lemma_arn_set_roundtrip(p.aws);
    lemma_string_set_roundtrip(p.canonical_user);
    lemma_string_set_roundtrip(p.federated);
    lemma_string_set_roundtrip(p.service);
    lemma_principal_fold_append((ea + eb) + ec, ed, acc0);
    lemma_principal_fold_append(ea + eb, ec, acc0);
    lemma_principal_fold_append(ea, eb, acc0);
    if p.aws.len() != 0 {
        assert(ea[0] == ("AWS"@, spec_encode_arn_set(p.aws)));
        assert(ea.drop_first() =~= Seq::<(Seq<char>, JsonData)>::empty());
    }
    let a1 = spec_principal_fold(ea, acc0);
    assert(a1 == Result::<PrincAcc, Seq<char>>::Ok(
        PrincAcc {
            aws: if p.aws.len() == 0 {
                Option::<Seq<ArnData>>::None
            } else {
                Option::Some(p.aws)
            },
            ..acc0
        },
    ));
    let acc1 = a1->Ok_0;
    if p.canonical_user.len() != 0 {
        assert(eb[0] == ("CanonicalUser"@, spec_encode_string_set(p.canonical_user)));
        assert(eb.drop_first() =~= Seq::<(Seq<char>, JsonData)>::empty());
        assert(eb[0].0 != "AWS"@) by {
            assert("CanonicalUser"@.len() != "AWS"@.len());
        }
    }
    let a2 = spec_principal_fold(eb, acc1);
    assert(a2 == Result::<PrincAcc, Seq<char>>::Ok(
        PrincAcc {
            canonical_user: if p.canonical_user.len() == 0 {
                Option::<Seq<Seq<char>>>::None
            } else {
                Option::Some(p.canonical_user)
            },
            ..acc1
        },
    ));
    let acc2 = a2->Ok_0;
    if p.federated.len() != 0 {
        assert(ec[0] == ("Federated"@, spec_encode_string_set(p.federated)));
        assert(ec.drop_first() =~= Seq::<(Seq<char>, JsonData)>::empty());
        assert(ec[0].0 != "AWS"@) by {
            assert("Federated"@.len() != "AWS"@.len());
        }
        assert(ec[0].0 != "CanonicalUser"@) by {
            assert("Federated"@.len() != "CanonicalUser"@.len());
        }
    }
    let a3 = spec_principal_fold(ec, acc2);
    assert(a3 == Result::<PrincAcc, Seq<char>>::Ok(
        PrincAcc {
            federated: if p.federated.len() == 0 {
                Option::<Seq<Seq<char>>>::None
            } else {
                Option::Some(p.federated)
            },
            ..acc2
        },
    ));
    let acc3 = a3->Ok_0;
    if p.service.len() != 0 {
        assert(ed[0] == ("Service"@, spec_encode_string_set(p.service)));
        assert(ed.drop_first() =~= Seq::<(Seq<char>, JsonData)>::empty());
        assert(ed[0].0 != "AWS"@) by {
            assert("Service"@.len() != "AWS"@.len());
        }
        assert(ed[0].0 != "CanonicalUser"@) by {
            assert("Service"@.len() != "CanonicalUser"@.len());
        }
        assert(ed[0].0 != "Federated"@) by {
            assert("Service"@.len() != "Federated"@.len());
        }
    }
    let a4 = spec_principal_fold(ed, acc3);
    assert(a4 == Result::<PrincAcc, Seq<char>>::Ok(
        PrincAcc {
            service: if p.service.len() == 0 {
                Option::<Seq<Seq<char>>>::None
            } else {
                Option::Some(p.service)
            },
            ..acc3
        },
    ));
    let acc4 = a4->Ok_0;
    assert(princ_acc_data(acc4).aws =~= p.aws);
    assert(princ_acc_data(acc4).canonical_user =~= p.canonical_user);
    assert(princ_acc_data(acc4).federated =~= p.federated);
    assert(princ_acc_data(acc4).service =~= p.service);
    assert(princ_acc_data(acc4) == p);
}


/// A statement model in canonical shape: every set field strictly
/// ordered with valid elements, principals canonical, condition keys
/// pairwise distinct.
pub open spec fn stmt_data_canonical(s: StatementData) -> bool {
    &&& match s.principal {
        Option::Some(p) => principal_data_canonical(p),
        Option::None => true,
    }
    &&& match s.not_principal {
        Option::Some(p) => principal_data_canonical(p),
        Option::None => true,
    }
    &&& strictly_sorted(|a: ActionData, b: ActionData| action_cmp(a, b), s.action)
    &&& forall|i: int| 0 <= i < s.action.len() ==> action_data_valid(#[trigger] s.action[i])
    &&& strictly_sorted(|a: ActionData, b: ActionData| action_cmp(a, b), s.not_action)
    &&& forall|i: int| 0 <= i < s.not_action.len() ==> action_data_valid(#[trigger] s.not_action[i])
    &&& strictly_sorted(|a: ResourceData, b: ResourceData| resource_cmp(a, b), s.resource)
    &&& forall|i: int| 0 <= i < s.resource.len() ==> resource_data_valid(#[trigger] s.resource[i])
    &&& strictly_sorted(|a: ResourceData, b: ResourceData| resource_cmp(a, b), s.not_resource)
    &&& forall|i: int|
        0 <= i < s.not_resource.len() ==> resource_data_valid(#[trigger] s.not_resource[i])
    &&& cond_data_wf(s.condition)
}

/// A formatted effect parses back to itself.
proof fn lemma_effect_format_parses(e: Effect)
    ensures
        spec_parse_effect(spec_format_effect(e)) == Result::<Effect, Seq<char>>::Ok(e),
{
    reveal_strlit("Allow");
    reveal_strlit("Deny");
    assert("Allow"@.len() == 5);
    assert("Deny"@.len() == 4);
}

/// Walking concatenated statement entries is walking each part in turn.
proof fn lemma_stmt_fold_append(
    es1: Seq<(Seq<char>, JsonData)>,
    es2: Seq<(Seq<char>, JsonData)>,
    acc: StmtAcc,
)
    ensures
        spec_stmt_fold(es1 + es2, acc) == (match spec_stmt_fold(es1, acc) {
            Result::Err(e) => Result::<StmtAcc, Seq<char>>::Err(e),
            Result::Ok(a) => spec_stmt_fold(es2, a),
        }),
    decreases es1.len(),
{
    if es1.len() == 0 {
        assert(es1 + es2 =~= es2);
    } else {
        assert((es1 + es2)[0] == es1[0]);
        assert((es1 + es2).drop_first() =~= es1.drop_first() + es2);
        let (k, v) = es1[0];
        let rest = es1.drop_first();
        if k == "Sid"@ && !(acc.sid is Some) {
            if spec_text_field(v) is Ok {
                lemma_stmt_fold_append(
                    rest,
                    es2,
                    StmtAcc { sid: Option::Some(spec_text_field(v)->Ok_0), ..acc },
                );
            }
        } else if k == "Effect"@ && !(acc.effect is Some) {
            if spec_effect_field(v) is Ok {
                lemma_stmt_fold_append(
                    rest,
                    es2,
                    StmtAcc { effect: Option::Some(spec_effect_field(v)->Ok_0), ..acc },
                );
            }
        } else if k == "Principal"@ && !(acc.principal is Some) {
            if spec_decode_principal(v) is Ok {
                lemma_stmt_fold_append(
                    rest,
                    es2,
                    StmtAcc { principal: Option::Some(spec_decode_principal(v)->Ok_0), ..acc },
                );
            }
        } else if k == "NotPrincipal"@ && !(acc.not_principal is Some) {
            if spec_decode_principal(v) is Ok {
                lemma_stmt_fold_append(
                    rest,
                    es2,
                    StmtAcc {
                        not_principal: Option::Some(spec_decode_principal(v)->Ok_0),
                        ..acc
                    },
                );
            }
        } else if k == "Action"@ && !(acc.action is Some) {
            if spec_action_set(v) is Ok {
                lemma_stmt_fold_append(
                    rest,
                    es2,
                    StmtAcc { action: Option::Some(spec_action_set(v)->Ok_0), ..acc },
                );
            }
        } else if k == "NotAction"@ && !(acc.not_action is Some) {
            if spec_action_set(v) is Ok {
                lemma_stmt_fold_append(
                    rest,
                    es2,
                    StmtAcc { not_action: Option::Some(spec_action_set(v)->Ok_0), ..acc },
                );
            }
        } else if k == "Resource"@ && !(acc.resource is Some) {
            if spec_resource_set(v) is Ok {
                lemma_stmt_fold_append(
                    rest,
                    es2,
                    StmtAcc { resource: Option::Some(spec_resource_set(v)->Ok_0), ..acc },
                );
            }
        } else if k == "NotResource"@ && !(acc.not_resource is Some) {
            if spec_resource_set(v) is Ok {
                lemma_stmt_fold_append(
                    rest,
                    es2,
                    StmtAcc { not_resource: Option::Some(spec_resource_set(v)->Ok_0), ..acc },
                );
            }
        } else if k == "Condition"@ && !(acc.condition is Some) {
            if spec_decode_condition(v) is Ok {
                lemma_stmt_fold_append(
                    rest,
                    es2,
                    StmtAcc { condition: Option::Some(spec_decode_condition(v)->Ok_0), ..acc },
                );
            }
        }
    }
}


/// One step of the statement walk, for each field in turn: an absent
/// entry leaves the slot empty, a present one fills it with the decoded
/// value.
proof fn lemma_stage_sid(es: Seq<(Seq<char>, JsonData)>, acc: StmtAcc, t: Option<Seq<char>>)
    requires
        acc.sid is None,
        t is Some <==> es.len() == 1,
        t is None ==> es.len() == 0,
        t is Some ==> es =~= seq![("Sid"@, JsonData::Str(t->Some_0))],
    ensures
        spec_stmt_fold(es, acc) == Result::<StmtAcc, Seq<char>>::Ok(StmtAcc { sid: t, ..acc }),
{
    reveal_with_fuel(spec_stmt_fold, 3);
    if t is Some {
        assert(es.drop_first() =~= Seq::<(Seq<char>, JsonData)>::empty());
    }
}

proof fn lemma_stage_effect(es: Seq<(Seq<char>, JsonData)>, acc: StmtAcc, e: Effect)
    requires
        acc.effect is None,
        es =~= seq![("Effect"@, JsonData::Str(spec_format_effect(e)))],
    ensures
        spec_stmt_fold(es, acc) == Result::<StmtAcc, Seq<char>>::Ok(
            StmtAcc { effect: Option::Some(e), ..acc },
        ),
{
    reveal_with_fuel(spec_stmt_fold, 3);
    reveal_strlit("Sid");
    reveal_strlit("Effect");
    assert("Sid"@.len() == 3);
    assert("Effect"@.len() == 6);
    lemma_effect_format_parses(e);
    assert(es.drop_first() =~= Seq::<(Seq<char>, JsonData)>::empty());
}

proof fn lemma_stage_principal(
    es: Seq<(Seq<char>, JsonData)>,
    acc: StmtAcc,
    p: Option<PrincipalData>,
    not_kind: bool,
)
    requires
        not_kind ==> acc.not_principal is None,
        !not_kind ==> acc.principal is None,
        p is Some <==> es.len() == 1,
        p is None ==> es.len() == 0,
        p is Some && !not_kind ==> es =~= seq![("Principal"@, spec_encode_principal(p->Some_0))]
            && spec_decode_principal(spec_encode_principal(p->Some_0)) == Result::<
            PrincipalData,
            Seq<char>,
        >::Ok(p->Some_0),
        p is Some && not_kind ==> es =~= seq![("NotPrincipal"@, spec_encode_principal(p->Some_0))]
            && spec_decode_principal(spec_encode_principal(p->Some_0)) == Result::<
            PrincipalData,
            Seq<char>,
        >::Ok(p->Some_0),
    ensures
        !not_kind ==> spec_stmt_fold(es, acc) == Result::<StmtAcc, Seq<char>>::Ok(
            StmtAcc { principal: p, ..acc },
        ),
        not_kind ==> spec_stmt_fold(es, acc) == Result::<StmtAcc, Seq<char>>::Ok(
            StmtAcc { not_principal: p, ..acc },
        ),
{
    reveal_with_fuel(spec_stmt_fold, 3);
    reveal_strlit("Sid");
    reveal_strlit("Effect");
    reveal_strlit("Principal");
    reveal_strlit("NotPrincipal");
    assert("Sid"@.len() == 3);
    assert("Effect"@.len() == 6);
    assert("Principal"@.len() == 9);
    assert("NotPrincipal"@.len() == 12);
    if p is Some {
        assert(es.drop_first() =~= Seq::<(Seq<char>, JsonData)>::empty());
    }
}

proof fn lemma_stage_actions(
    es: Seq<(Seq<char>, JsonData)>,
    acc: StmtAcc,
    setv: Seq<ActionData>,
    not_kind: bool,
)
    requires
        not_kind ==> acc.not_action is None,
        !not_kind ==> acc.action is None,
        setv.len() == 0 <==> es.len() == 0,
        setv.len() != 0 && !not_kind ==> es =~= seq![("Action"@, spec_encode_action_set(setv))]
            && spec_action_set(spec_encode_action_set(setv)) == Result::<
            Seq<ActionData>,
            Seq<char>,
        >::Ok(setv),
        setv.len() != 0 && not_kind ==> es =~= seq![
            ("NotAction"@, spec_encode_action_set(setv)),
        ] && spec_action_set(spec_encode_action_set(setv)) == Result::<
            Seq<ActionData>,
            Seq<char>,
        >::Ok(setv),
    ensures
        !not_kind ==> spec_stmt_fold(es, acc) == Result::<StmtAcc, Seq<char>>::Ok(
            StmtAcc {
                action: if setv.len() == 0 {
                    Option::<Seq<ActionData>>::None
                } else {
                    Option::Some(setv)
                },
                ..acc
            },
        ),
        not_kind ==> spec_stmt_fold(es, acc) == Result::<StmtAcc, Seq<char>>::Ok(
            StmtAcc {
                not_action: if setv.len() == 0 {
                    Option::<Seq<ActionData>>::None
                } else {
                    Option::Some(setv)
                },
                ..acc
            },
        ),
{
    reveal_with_fuel(spec_stmt_fold, 3);
    reveal_strlit("Sid");
    reveal_strlit("Effect");
    reveal_strlit("Principal");
    reveal_strlit("NotPrincipal");
    reveal_strlit("Action");
    reveal_strlit("NotAction");
    assert("Sid"@.len() == 3);
    assert("Effect"@.len() == 6);
    assert("Principal"@.len() == 9);
    assert("NotPrincipal"@.len() == 12);
    assert("Action"@.len() == 6);
    assert("NotAction"@.len() == 9);
    assert("Effect"@[0] == 'E' && "Action"@[0] == 'A');
    assert("Principal"@[0] == 'P' && "NotAction"@[0] == 'N');
    if setv.len() != 0 {
        assert(es.drop_first() =~= Seq::<(Seq<char>, JsonData)>::empty());
    }
}

proof fn lemma_stage_resources(
    es: Seq<(Seq<char>, JsonData)>,
    acc: StmtAcc,
    setv: Seq<ResourceData>,
    not_kind: bool,
)
    requires
        not_kind ==> acc.not_resource is None,
        !not_kind ==> acc.resource is None,
        setv.len() == 0 <==> es.len() == 0,
        setv.len() != 0 && !not_kind ==> es =~= seq![
            ("Resource"@, spec_encode_resource_set(setv)),
        ] && spec_resource_set(spec_encode_resource_set(setv)) == Result::<
            Seq<ResourceData>,
            Seq<char>,
        >::Ok(setv),
        setv.len() != 0 && not_kind ==> es =~= seq![
            ("NotResource"@, spec_encode_resource_set(setv)),
        ] && spec_resource_set(spec_encode_resource_set(setv)) == Result::<
            Seq<ResourceData>,
            Seq<char>,
        >::Ok(setv),
    ensures
        !not_kind ==> spec_stmt_fold(es, acc) == Result::<StmtAcc, Seq<char>>::Ok(
            StmtAcc {
                resource: if setv.len() == 0 {
                    Option::<Seq<ResourceData>>::None
                } else {
                    Option::Some(setv)
                },
                ..acc
            },
        ),
        not_kind ==> spec_stmt_fold(es, acc) == Result::<StmtAcc, Seq<char>>::Ok(
            StmtAcc {
                not_resource: if setv.len() == 0 {
                    Option::<Seq<ResourceData>>::None
                } else {
                    Option::Some(setv)
                },
                ..acc
            },
        ),
{
    reveal_with_fuel(spec_stmt_fold, 3);
    reveal_strlit("Sid");
    reveal_strlit("Effect");
    reveal_strlit("Principal");
    reveal_strlit("NotPrincipal");
    reveal_strlit("Action");
    reveal_strlit("NotAction");
    reveal_strlit("Resource");
    reveal_strlit("NotResource");
    assert("Sid"@.len() == 3);
    assert("Effect"@.len() == 6);
    assert("Principal"@.len() == 9);
    assert("NotPrincipal"@.len() == 12);
    assert("Action"@.len() == 6);
    assert("NotAction"@.len() == 9);
    assert("Resource"@.len() == 8);
    assert("NotResource"@.len() == 11);
    assert("Effect"@[0] == 'E' && "Action"@[0] == 'A');
    assert("Principal"@[0] == 'P' && "NotAction"@[0] == 'N');
    if setv.len() != 0 {
        assert(es.drop_first() =~= Seq::<(Seq<char>, JsonData)>::empty());
    }
}

proof fn lemma_stage_condition(es: Seq<(Seq<char>, JsonData)>, acc: StmtAcc, cd: CondData)
    requires
        acc.condition is None,
        cd.len() == 0 <==> es.len() == 0,
        cd.len() != 0 ==> es =~= seq![("Condition"@, spec_encode_condition(cd))]
            && spec_decode_condition(spec_encode_condition(cd)) == Result::<
            CondData,
            Seq<char>,
        >::Ok(cd),
    ensures
        spec_stmt_fold(es, acc) == Result::<StmtAcc, Seq<char>>::Ok(
            StmtAcc {
                condition: if cd.len() == 0 {
                    Option::<CondData>::None
                } else {
                    Option::Some(cd)
                },
                ..acc
            },
        ),
{
    reveal_with_fuel(spec_stmt_fold, 3);
    reveal_strlit("Sid");
    reveal_strlit("Effect");
    reveal_strlit("Principal");
    reveal_strlit("NotPrincipal");
    reveal_strlit("Action");
    reveal_strlit("NotAction");
    reveal_strlit("Resource");
    reveal_strlit("NotResource");
    reveal_strlit("Condition");
    assert("Sid"@.len() == 3);
    assert("Effect"@.len() == 6);
    assert("Principal"@.len() == 9);
    assert("NotPrincipal"@.len() == 12);
    assert("Action"@.len() == 6);
    assert("NotAction"@.len() == 9);
    assert("Resource"@.len() == 8);
    assert("NotResource"@.len() == 11);
    assert("Condition"@.len() == 9);
    assert("Effect"@[0] == 'E' && "Action"@[0] == 'A');
    assert("Principal"@[0] == 'P' && "NotAction"@[0] == 'N' && "Condition"@[0] == 'C');
    if cd.len() != 0 {
        assert(es.drop_first() =~= Seq::<(Seq<char>, JsonData)>::empty());
    }
}

/// The statement entries are the nine field parts, in order.
#[verifier::rlimit(100)]
proof fn lemma_stmt_entries_decomp(
    s: StatementData,
    e1: Seq<(Seq<char>, JsonData)>,
    e2s: Seq<(Seq<char>, JsonData)>,
    e3s: Seq<(Seq<char>, JsonData)>,
    e4s: Seq<(Seq<char>, JsonData)>,
    e5s: Seq<(Seq<char>, JsonData)>,
    e6s: Seq<(Seq<char>, JsonData)>,
    e7s: Seq<(Seq<char>, JsonData)>,
    e8s: Seq<(Seq<char>, JsonData)>,
    e9s: Seq<(Seq<char>, JsonData)>,
)
    requires
        e1 == (match s.sid {
            Option::Some(t) => Seq::<(Seq<char>, JsonData)>::empty().push(
                ("Sid"@, JsonData::Str(t)),
            ),
            Option::None => Seq::<(Seq<char>, JsonData)>::empty(),
        }),
        e2s == seq![("Effect"@, JsonData::Str(spec_format_effect(s.effect)))],
        e3s == (match s.principal {
            Option::Some(p) => seq![("Principal"@, spec_encode_principal(p))],
            Option::None => Seq::<(Seq<char>, JsonData)>::empty(),
        }),
        e4s == (match s.not_principal {
            Option::Some(p) => seq![("NotPrincipal"@, spec_encode_principal(p))],
            Option::None => Seq::<(Seq<char>, JsonData)>::empty(),
        }),
        e5s == (if s.action.len() == 0 {
            Seq::<(Seq<char>, JsonData)>::empty()
        } else {
            seq![("Action"@, spec_encode_action_set(s.action))]
        }),
        e6s == (if s.not_action.len() == 0 {
            Seq::<(Seq<char>, JsonData)>::empty()
        } else {
            seq![("NotAction"@, spec_encode_action_set(s.not_action))]
        }),
        e7s == (if s.resource.len() == 0 {
            Seq::<(Seq<char>, JsonData)>::empty()
        } else {
            seq![("Resource"@, spec_encode_resource_set(s.resource))]
        }),
        e8s == (if s.not_resource.len() == 0 {
            Seq::<(Seq<char>, JsonData)>::empty()
        } else {
            seq![("NotResource"@, spec_encode_resource_set(s.not_resource))]
        }),
        e9s == (if s.condition.len() == 0 {
            Seq::<(Seq<char>, JsonData)>::empty()
        } else {
            seq![("Condition"@, spec_encode_condition(s.condition))]
        }),
    ensures
        spec_statement_entries(s) =~= (((((((e1 + e2s) + e3s) + e4s) + e5s) + e6s) + e7s) + e8s)
            + e9s,
{
}

/// Walking the nine parts in turn fills the slots one after another.
#[verifier::rlimit(100)]
proof fn lemma_stmt_fold_parts(
    sid: Option<Seq<char>>,
    eff: Effect,
    pr: Option<PrincipalData>,
    npr: Option<PrincipalData>,
    act: Seq<ActionData>,
    nact: Seq<ActionData>,
    res: Seq<ResourceData>,
    nres: Seq<ResourceData>,
    cd: CondData,
    e1: Seq<(Seq<char>, JsonData)>,
    e2s: Seq<(Seq<char>, JsonData)>,
    e3s: Seq<(Seq<char>, JsonData)>,
    e4s: Seq<(Seq<char>, JsonData)>,
    e5s: Seq<(Seq<char>, JsonData)>,
    e6s: Seq<(Seq<char>, JsonData)>,
    e7s: Seq<(Seq<char>, JsonData)>,
    e8s: Seq<(Seq<char>, JsonData)>,
    e9s: Seq<(Seq<char>, JsonData)>,
)
    requires
        sid is Some <==> e1.len() == 1,
        sid is None ==> e1.len() == 0,
        sid is Some ==> e1 =~= seq![("Sid"@, JsonData::Str(sid->Some_0))],
        e2s =~= seq![("Effect"@, JsonData::Str(spec_format_effect(eff)))],
        pr is Some <==> e3s.len() == 1,
        pr is None ==> e3s.len() == 0,
        pr is Some ==> e3s =~= seq![("Principal"@, spec_encode_principal(pr->Some_0))]
            && spec_decode_principal(spec_encode_principal(pr->Some_0)) == Result::<
            PrincipalData,
            Seq<char>,
        >::Ok(pr->Some_0),
        npr is Some <==> e4s.len() == 1,
        npr is None ==> e4s.len() == 0,
        npr is Some ==> e4s =~= seq![("NotPrincipal"@, spec_encode_principal(npr->Some_0))]
            && spec_decode_principal(spec_encode_principal(npr->Some_0)) == Result::<
            PrincipalData,
            Seq<char>,
        >::Ok(npr->Some_0),
        act.len() == 0 <==> e5s.len() == 0,
        act.len() != 0 ==> e5s =~= seq![("Action"@, spec_encode_action_set(act))]
            && spec_action_set(spec_encode_action_set(act)) == Result::<
            Seq<ActionData>,
            Seq<char>,
        >::Ok(act),
        nact.len() == 0 <==> e6s.len() == 0,
        nact.len() != 0 ==> e6s =~= seq![("NotAction"@, spec_encode_action_set(nact))]
            && spec_action_set(spec_encode_action_set(nact)) == Result::<
            Seq<ActionData>,
            Seq<char>,
        >::Ok(nact),
        res.len() == 0 <==> e7s.len() == 0,
        res.len() != 0 ==> e7s =~= seq![("Resource"@, spec_encode_resource_set(res))]
            && spec_resource_set(spec_encode_resource_set(res)) == Result::<
            Seq<ResourceData>,
            Seq<char>,
        >::Ok(res),
        nres.len() == 0 <==> e8s.len() == 0,
        nres.len() != 0 ==> e8s =~= seq![("NotResource"@, spec_encode_resource_set(nres))]
            && spec_resource_set(spec_encode_resource_set(nres)) == Result::<
            Seq<ResourceData>,
            Seq<char>,
        >::Ok(nres),
        cd.len() == 0 <==> e9s.len() == 0,
        cd.len() != 0 ==> e9s =~= seq![("Condition"@, spec_encode_condition(cd))]
            && spec_decode_condition(spec_encode_condition(cd)) == Result::<
            CondData,
            Seq<char>,
        >::Ok(cd),
    ensures
        spec_stmt_fold(
            (((((((e1 + e2s) + e3s) + e4s) + e5s) + e6s) + e7s) + e8s) + e9s,
            StmtAcc {
                sid: Option::None,
                effect: Option::None,
                principal: Option::None,
                not_principal: Option::None,
                action: Option::None,
                not_action: Option::None,
                resource: Option::None,
                not_resource: Option::None,
                condition: Option::None,
            },
        ) == Result::<StmtAcc, Seq<char>>::Ok(
            StmtAcc {
                sid,
                effect: Option::Some(eff),
                principal: pr,
                not_principal: npr,
                action: if act.len() == 0 {
                    Option::<Seq<ActionData>>::None
                } else {
                    Option::Some(act)
                },
                not_action: if nact.len() == 0 {
                    Option::<Seq<ActionData>>::None
                } else {
                    Option::Some(nact)
                },
                resource: if res.len() == 0 {
                    Option::<Seq<ResourceData>>::None
                } else {
                    Option::Some(res)
                },
                not_resource: if nres.len() == 0 {
                    Option::<Seq<ResourceData>>::None
                } else {
                    Option::Some(nres)
                },
                condition: if cd.len() == 0 {
                    Option::<CondData>::None
                } else {
                    Option::Some(cd)
                },
            },
        ),
{
    let acc0 = StmtAcc {
        sid: Option::None,
        effect: Option::None,
        principal: Option::None,
        not_principal: Option::None,
        action: Option::None,
        not_action: Option::None,
        resource: Option::None,
        not_resource: Option::None,
        condition: Option::None,
    };
    lemma_stmt_fold_append(
        ((((((e1 + e2s) + e3s) + e4s) + e5s) + e6s) + e7s) + e8s,
        e9s,
        acc0,
    );
    lemma_stmt_fold_append((((((e1 + e2s) + e3s) + e4s) + e5s) + e6s) + e7s, e8s, acc0);
    lemma_stmt_fold_append(((((e1 + e2s) + e3s) + e4s) + e5s) + e6s, e7s, acc0);
    lemma_stmt_fold_append((((e1 + e2s) + e3s) + e4s) + e5s, e6s, acc0);
    lemma_stmt_fold_append(((e1 + e2s) + e3s) + e4s, e5s, acc0);
    lemma_stmt_fold_append((e1 + e2s) + e3s, e4s, acc0);
    lemma_stmt_fold_append(e1 + e2s, e3s, acc0);
    lemma_stmt_fold_append(e1, e2s, acc0);
    lemma_stage_sid(e1, acc0, sid);
    let acc1 = StmtAcc { sid, ..acc0 };
    lemma_stage_effect(e2s, acc1, eff);
    let acc2 = StmtAcc { effect: Option::Some(eff), ..acc1 };
    lemma_stage_principal(e3s, acc2, pr, false);
    let acc3 = StmtAcc { principal: pr, ..acc2 };
    lemma_stage_principal(e4s, acc3, npr, true);
    let acc4 = StmtAcc { not_principal: npr, ..acc3 };
    lemma_stage_actions(e5s, acc4, act, false);
    let acc5 = StmtAcc {
        action: if act.len() == 0 {
            Option::<Seq<ActionData>>::None
        } else {
            Option::Some(act)
        },
        ..acc4
    };
    lemma_stage_actions(e6s, acc5, nact, true);
    let acc6 = StmtAcc {
        not_action: if nact.len() == 0 {
            Option::<Seq<ActionData>>::None
        } else {
            Option::Some(nact)
        },
        ..acc5
    };
    lemma_stage_resources(e7s, acc6, res, false);
    let acc7 = StmtAcc {
        resource: if res.len() == 0 {
            Option::<Seq<ResourceData>>::None
        } else {
            Option::Some(res)
        },
        ..acc6
    };
    lemma_stage_resources(e8s, acc7, nres, true);
    let acc8 = StmtAcc {
        not_resource: if nres.len() == 0 {
            Option::<Seq<ResourceData>>::None
        } else {
            Option::Some(nres)
        },
        ..acc7
    };
    lemma_stage_condition(e9s, acc8, cd);
}

/// The slots a statement's own entries fill.
pub open spec fn stmt_slots_of(s: StatementData) -> StmtAcc {
    StmtAcc {
        sid: s.sid,
        effect: Option::Some(s.effect),
        principal: s.principal,
        not_principal: s.not_principal,
        action: if s.action.len() == 0 {
            Option::<Seq<ActionData>>::None
        } else {
            Option::Some(s.action)
        },
        not_action: if s.not_action.len() == 0 {
            Option::<Seq<ActionData>>::None
        } else {
            Option::Some(s.not_action)
        },
        resource: if s.resource.len() == 0 {
            Option::<Seq<ResourceData>>::None
        } else {
            Option::Some(s.resource)
        },
        not_resource: if s.not_resource.len() == 0 {
            Option::<Seq<ResourceData>>::None
        } else {
            Option::Some(s.not_resource)
        },
        condition: if s.condition.len() == 0 {
            Option::<CondData>::None
        } else {
            Option::Some(s.condition)
        },
    }
}

/// Filling the slots back into a statement gives the statement.
proof fn lemma_slots_data(s: StatementData)
    ensures
        stmt_acc_data(stmt_slots_of(s), s.effect) == s,
{
    assert(stmt_acc_data(stmt_slots_of(s), s.effect).action =~= s.action);
    assert(stmt_acc_data(stmt_slots_of(s), s.effect).not_action =~= s.not_action);
    assert(stmt_acc_data(stmt_slots_of(s), s.effect).resource =~= s.resource);
    assert(stmt_acc_data(stmt_slots_of(s), s.effect).not_resource =~= s.not_resource);
    assert(stmt_acc_data(stmt_slots_of(s), s.effect).condition =~= s.condition);
}

/// The whole statement walk: the encoded entries fill exactly the slots.
#[verifier::rlimit(100)]
#[verifier::spinoff_prover]
proof fn lemma_stmt_fold_entries(s: StatementData)
    requires
        stmt_data_canonical(s),
    ensures
        spec_stmt_fold(
            spec_statement_entries(s),
            StmtAcc {
                sid: Option::None,
                effect: Option::None,
                principal: Option::None,
                not_principal: Option::None,
                action: Option::None,
                not_action: Option::None,
                resource: Option::None,
                not_resource: Option::None,
                condition: Option::None,
            },
        ) == Result::<StmtAcc, Seq<char>>::Ok(stmt_slots_of(s)),
{
    let e1 = match s.sid {
        Option::Some(t) => Seq::<(Seq<char>, JsonData)>::empty().push(("Sid"@, JsonData::Str(t))),
        Option::None => Seq::<(Seq<char>, JsonData)>::empty(),
    };
    let e2s = seq![("Effect"@, JsonData::Str(spec_format_effect(s.effect)))];
    let e3s = match s.principal {
        Option::Some(p) => seq![("Principal"@, spec_encode_principal(p))],
        Option::None => Seq::<(Seq<char>, JsonData)>::empty(),
    };
    let e4s = match s.not_principal {
        Option::Some(p) => seq![("NotPrincipal"@, spec_encode_principal(p))],
        Option::None => Seq::<(Seq<char>, JsonData)>::empty(),
    };
    let e5s = if s.action.len() == 0 {
        Seq::<(Seq<char>, JsonData)>::empty()
    } else {
        seq![("Action"@, spec_encode_action_set(s.action))]
    };
    let e6s = if s.not_action.len() == 0 {
        Seq::<(Seq<char>, JsonData)>::empty()
    } else {
        seq![("NotAction"@, spec_encode_action_set(s.not_action))]
    };
    let e7s = if s.resource.len() == 0 {
        Seq::<(Seq<char>, JsonData)>::empty()
    } else {
        seq![("Resource"@, spec_encode_resource_set(s.resource))]
    };
    let e8s = if s.not_resource.len() == 0 {
        Seq::<(Seq<char>, JsonData)>::empty()
    } else {
        seq![("NotResource"@, spec_encode_resource_set(s.not_resource))]
    };
    let e9s = if s.condition.len() == 0 {
        Seq::<(Seq<char>, JsonData)>::empty()
    } else {
        seq![("Condition"@, spec_encode_condition(s.condition))]
    };
    if s.principal is Some {
        lemma_principal_roundtrip(s.principal->Some_0);
    }
    if s.not_principal is Some {
        lemma_principal_roundtrip(s.not_principal->Some_0);
    }
    lemma_action_set_roundtrip(s.action);
    lemma_action_set_roundtrip(s.not_action);
    lemma_resource_set_roundtrip(s.resource);
    lemma_resource_set_roundtrip(s.not_resource);
    lemma_condition_roundtrip(s.condition);
    lemma_stmt_entries_decomp(s, e1, e2s, e3s, e4s, e5s, e6s, e7s, e8s, e9s);
    lemma_stmt_fold_parts(
        s.sid,
        s.effect,
        s.principal,
        s.not_principal,
        s.action,
        s.not_action,
        s.resource,
        s.not_resource,
        s.condition,
        e1,
        e2s,
        e3s,
        e4s,
        e5s,
        e6s,
        e7s,
        e8s,
        e9s,
    );
}

/// Encoding a statement and decoding it yields the statement back,
/// provided it is in canonical shape — which every decoded statement is
/// after its sets are rebuilt in order.
pub proof fn lemma_statement_roundtrip(s: StatementData)
    requires
        stmt_data_canonical(s),
    ensures
        spec_decode_statement(spec_encode_statement(s)) == Result::<
            StatementData,
            Seq<char>,
        >::Ok(s),
{
    lemma_stmt_fold_entries(s);
    lemma_slots_data(s);
}


/// Decoding the encoded statement list yields the statements back, in
/// order, when each is canonical.
proof fn lemma_stmt_list_roundtrip(stmts: Seq<StatementData>)
    requires
        forall|i: int| 0 <= i < stmts.len() ==> stmt_data_canonical(#[trigger] stmts[i]),
    ensures
        spec_statement_list(JsonData::Arr(spec_statement_items(stmts))) == Result::<
            Seq<StatementData>,
            Seq<char>,
        >::Ok(stmts),
{
    lemma_stmt_list_fold_rebuild(stmts, 0);
    assert(spec_statement_items(stmts).skip(0) =~= spec_statement_items(stmts));
    assert(stmts.take(0) =~= Seq::<StatementData>::empty());
}

proof fn lemma_stmt_list_fold_rebuild(stmts: Seq<StatementData>, k: int)
    requires
        forall|i: int| 0 <= i < stmts.len() ==> stmt_data_canonical(#[trigger] stmts[i]),
        0 <= k <= stmts.len(),
    ensures
        spec_stmt_list_fold(spec_statement_items(stmts).skip(k), stmts.take(k)) == Result::<
            Seq<StatementData>,
            Seq<char>,
        >::Ok(stmts),
    decreases stmts.len() - k,
{
    let items = spec_statement_items(stmts);
    if k == stmts.len() {
        assert(items.skip(k).len() == 0);
        assert(stmts.take(k) =~= stmts);
    } else {
        assert(items.skip(k)[0] == items[k]);
        assert(items[k] == spec_encode_statement(stmts[k]));
        lemma_statement_roundtrip(stmts[k]);
        assert(stmts.take(k).push(stmts[k]) =~= stmts.take(k + 1));
        assert(items.skip(k).drop_first() =~= items.skip(k + 1));
        lemma_stmt_list_fold_rebuild(stmts, k + 1);
    }
}

/// Walking concatenated policy entries is walking each part in turn.
proof fn lemma_policy_fold_append(
    es1: Seq<(Seq<char>, JsonData)>,
    es2: Seq<(Seq<char>, JsonData)>,
    acc: PolicyAcc,
)
    ensures
        spec_policy_fold(es1 + es2, acc) == (match spec_policy_fold(es1, acc) {
            Result::Err(e) => Result::<PolicyAcc, Seq<char>>::Err(e),
            Result::Ok(a) => spec_policy_fold(es2, a),
        }),
    decreases es1.len(),
{
    if es1.len() == 0 {
        assert(es1 + es2 =~= es2);
    } else {
        assert((es1 + es2)[0] == es1[0]);
        assert((es1 + es2).drop_first() =~= es1.drop_first() + es2);
        let (k, v) = es1[0];
        let rest = es1.drop_first();
        lemma_policy_fold_append(rest, es2, acc);
        if k == "Version"@ && !(acc.version is Some) {
            if spec_text_field(v) is Ok {
                lemma_policy_fold_append(
                    rest,
                    es2,
                    PolicyAcc { version: Option::Some(spec_text_field(v)->Ok_0), ..acc },
                );
            }
        } else if k == "Id"@ && !(acc.id is Some) {
            if spec_text_field(v) is Ok {
                lemma_policy_fold_append(
                    rest,
                    es2,
                    PolicyAcc { id: Option::Some(spec_text_field(v)->Ok_0), ..acc },
                );
            }
        } else if k == "Statement"@ && !(acc.statement is Some) {
            if spec_statement_list(v) is Ok {
                lemma_policy_fold_append(
                    rest,
                    es2,
                    PolicyAcc { statement: Option::Some(spec_statement_list(v)->Ok_0), ..acc },
                );
            }
        }
    }
}

/// A policy model in canonical shape: every statement canonical.
pub open spec fn policy_data_all_canonical(p: PolicyData) -> bool {
    forall|i: int| 0 <= i < p.statement.len() ==> stmt_data_canonical(#[trigger] p.statement[i])
}

/// Encoding a policy and decoding it yields the policy back, provided
/// every statement is in canonical shape — which every canonicalized
/// policy is.
#[verifier::rlimit(100)]
pub proof fn lemma_policy_roundtrip(p: PolicyData)
    requires
        policy_data_all_canonical(p),
    ensures
        spec_decode_policy(spec_encode_policy(p)) == Result::<PolicyData, Seq<char>>::Ok(p),
{
    reveal_with_fuel(spec_policy_fold, 3);
    reveal_strlit("Version");
    reveal_strlit("Id");
    reveal_strlit("Statement");
    assert("Version"@.len() == 7);
    assert("Id"@.len() == 2);
    assert("Statement"@.len() == 9);
    let acc0 = PolicyAcc { version: Option::None, id: Option::None, statement: Option::None };
    let ea = match p.version {
        Option::Some(t) => seq![("Version"@, JsonData::Str(t))],
        Option::None => Seq::<(Seq<char>, JsonData)>::empty(),
    };
    let eb = match p.id {
        Option::Some(t) => seq![("Id"@, JsonData::Str(t))],
        Option::None => Seq::<(Seq<char>, JsonData)>::empty(),
    };
    let ec = if p.statement.len() == 0 {
        Seq::<(Seq<char>, JsonData)>::empty()
    } else {
        seq![("Statement"@, JsonData::Arr(spec_statement_items(p.statement)))]
    };
    assert(spec_policy_entries(p) =~= (ea + eb) + ec);
    lemma_stmt_list_roundtrip(p.statement);
    lemma_policy_fold_append(ea + eb, ec, acc0);
    lemma_policy_fold_append(ea, eb, acc0);
    if p.version is Some {
        assert(ea[0] == ("Version"@, JsonData::Str(p.version->Some_0)));
        assert(ea.drop_first() =~= Seq::<(Seq<char>, JsonData)>::empty());
    }
    let a1 = spec_policy_fold(ea, acc0);
    assert(a1 == Result::<PolicyAcc, Seq<char>>::Ok(PolicyAcc { version: p.version, ..acc0 }));
    let acc1 = a1->Ok_0;
    if p.id is Some {
        assert(eb[0] == ("Id"@, JsonData::Str(p.id->Some_0)));
        assert(eb.drop_first() =~= Seq::<(Seq<char>, JsonData)>::empty());
        assert(eb[0].0 != "Version"@) by {
            assert("Id"@.len() != "Version"@.len());
        }
    }
    let a2 = spec_policy_fold(eb, acc1);
    assert(a2 == Result::<PolicyAcc, Seq<char>>::Ok(PolicyAcc { id: p.id, ..acc1 }));
    let acc2 = a2->Ok_0;
    if p.statement.len() != 0 {
        assert(ec[0] == ("Statement"@, JsonData::Arr(spec_statement_items(p.statement))));
        assert(ec.drop_first() =~= Seq::<(Seq<char>, JsonData)>::empty());
        assert(ec[0].0 != "Version"@) by {
            assert("Statement"@.len() != "Version"@.len());
        }
        assert(ec[0].0 != "Id"@) by {
            assert("Statement"@.len() != "Id"@.len());
        }
    }
    let a3 = spec_policy_fold(ec, acc2);
    assert(a3 == Result::<PolicyAcc, Seq<char>>::Ok(
        PolicyAcc {
            statement: if p.statement.len() == 0 {
                Option::<Seq<StatementData>>::None
            } else {
                Option::Some(p.statement)
            },
            ..acc2
        },
    ));
    let acc3 = a3->Ok_0;
    assert((match acc3.statement {
        Option::Some(l) => l,
        Option::None => Seq::<StatementData>::empty(),
    }) =~= p.statement);
}

/// Canonicalizing settles a document whose sorted statements are in
/// canonical shape; the theorem below discharges that premise for every
/// accepted document.
proof fn lemma_canonicalize_idempotent(d: JsonData)
    requires
        spec_canonicalize(d) is Ok,
        policy_data_all_canonical(
            spec_canonical_policy(spec_decode_policy(d)->Ok_0),
        ),
    ensures
        spec_canonicalize(spec_canonicalize(d)->Ok_0) == spec_canonicalize(d),
{
    let p = spec_decode_policy(d)->Ok_0;
    let cp = spec_canonical_policy(p);
    lemma_policy_roundtrip(cp);
    lemma_sort_stmts_sorted(p.statement);
    lemma_sort_stmts_idempotent(cp.statement);
    assert(spec_sort_stmts(cp.statement) == cp.statement);
    assert(spec_canonical_policy(cp) == cp);
}


/// Everything a set fold builds is strictly ordered and elementwise
/// valid, when the element parser only yields valid elements.
proof fn lemma_set_fold_canonical<M>(
    pe: spec_fn(JsonData) -> Result<M, Seq<char>>,
    c: spec_fn(M, M) -> Cmp,
    valid: spec_fn(M) -> bool,
    items: Seq<JsonData>,
    acc: Seq<M>,
)
    requires
        lawful_cmp(c),
        strictly_sorted(c, acc),
        forall|k: int| 0 <= k < acc.len() ==> valid(#[trigger] acc[k]),
        forall|d: JsonData| #[trigger] pe(d) is Ok ==> valid(pe(d)->Ok_0),
        spec_set_fold(pe, c, items, acc) is Ok,
    ensures
        strictly_sorted(c, spec_set_fold(pe, c, items, acc)->Ok_0),
        forall|k: int|
            0 <= k < spec_set_fold(pe, c, items, acc)->Ok_0.len() ==> valid(
                #[trigger] spec_set_fold(pe, c, items, acc)->Ok_0[k],
            ),
    decreases items.len(),
{
    if items.len() == 0 {
    } else {
        let m = pe(items[0])->Ok_0;
        let acc2 = spec_set_insert(c, acc, m);
        lemma_set_insert_sorted(c, acc, m);
        lemma_set_insert_elems(c, acc, m);
        assert forall|k: int| 0 <= k < acc2.len() implies valid(#[trigger] acc2[k]) by {
            if acc2[k] != m {
                let j = choose|j: int| 0 <= j < acc.len() && acc[j] == acc2[k];
                assert(valid(acc[j]));
            }
        }
        lemma_set_fold_canonical(pe, c, valid, items.drop_first(), acc2);
    }
}

/// A decoded action set is strictly ordered with valid elements.
proof fn lemma_action_set_canonical(d: JsonData)
    requires
        spec_action_set(d) is Ok,
    ensures
        strictly_sorted(
            |a: ActionData, b: ActionData| action_cmp(a, b),
            spec_action_set(d)->Ok_0,
        ),
        forall|k: int|
            0 <= k < spec_action_set(d)->Ok_0.len() ==> action_data_valid(
                #[trigger] spec_action_set(d)->Ok_0[k],
            ),
{
    let pe = |x: JsonData| spec_action_elem(x);
    let c = |a: ActionData, b: ActionData| action_cmp(a, b);
    let valid = |m: ActionData| action_data_valid(m);
    lemma_action_cmp_lawful();
    assert forall|x: JsonData| #[trigger] pe(x) is Ok implies valid(pe(x)->Ok_0) by {
        lemma_parse_action_valid(spec_text_field(x)->Ok_0);
    }
    lemma_set_fold_canonical(pe, c, valid, invariable::spec_unwrap(d), Seq::empty());
}

/// A decoded resource set is strictly ordered with valid elements.
proof fn lemma_resource_set_canonical(d: JsonData)
    requires
        spec_resource_set(d) is Ok,
    ensures
        strictly_sorted(
            |a: ResourceData, b: ResourceData| resource_cmp(a, b),
            spec_resource_set(d)->Ok_0,
        ),
        forall|k: int|
            0 <= k < spec_resource_set(d)->Ok_0.len() ==> resource_data_valid(
                #[trigger] spec_resource_set(d)->Ok_0[k],
            ),
{
    let pe = |x: JsonData| spec_resource_elem(x);
    let c = |a: ResourceData, b: ResourceData| resource_cmp(a, b);
    let valid = |m: ResourceData| resource_data_valid(m);
    lemma_resource_cmp_lawful();
    assert forall|x: JsonData| #[trigger] pe(x) is Ok implies valid(pe(x)->Ok_0) by {
        lemma_parse_resource_valid(spec_text_field(x)->Ok_0);
    }
    lemma_set_fold_canonical(pe, c, valid, invariable::spec_unwrap(d), Seq::empty());
}

/// A decoded ARN set is strictly ordered with valid elements.
proof fn lemma_arn_set_canonical(d: JsonData)
    requires
        spec_arn_set(d) is Ok,
    ensures
        strictly_sorted(|a: ArnData, b: ArnData| arn_cmp(a, b), spec_arn_set(d)->Ok_0),
        forall|k: int|
            0 <= k < spec_arn_set(d)->Ok_0.len() ==> arn_data_valid(
                #[trigger] spec_arn_set(d)->Ok_0[k],
            ),
{
    let pe = |x: JsonData| spec_arn_elem(x);
    let c = |a: ArnData, b: ArnData| arn_cmp(a, b);
    let valid = |m: ArnData| arn_data_valid(m);
    lemma_arn_cmp_lawful();
    assert forall|x: JsonData| #[trigger] pe(x) is Ok implies valid(pe(x)->Ok_0) by {
        lemma_parse_arn_valid(spec_text_field(x)->Ok_0);
    }
    lemma_set_fold_canonical(pe, c, valid, invariable::spec_unwrap(d), Seq::empty());
}

/// A decoded text set is strictly ordered.
proof fn lemma_string_set_canonical(d: JsonData)
    requires
        spec_string_set(d) is Ok,
    ensures
        strictly_sorted(|a: Seq<char>, b: Seq<char>| text_cmp(a, b), spec_string_set(d)->Ok_0),
{
    let pe = |x: JsonData| spec_string_elem(x);
    let c = |a: Seq<char>, b: Seq<char>| text_cmp(a, b);
    let valid = |m: Seq<char>| true;
    lemma_text_cmp_lawful();
    lemma_set_fold_canonical(pe, c, valid, invariable::spec_unwrap(d), Seq::empty());
}

/// A decoded principal is in canonical shape.
proof fn lemma_decode_principal_canonical(d: JsonData)
    requires
        spec_decode_principal(d) is Ok,
    ensures
        principal_data_canonical(spec_decode_principal(d)->Ok_0),
{
    let entries = d->Obj_0;
    let acc0 = PrincAcc {
        aws: Option::None,
        canonical_user: Option::None,
        federated: Option::None,
        service: Option::None,
    };
    lemma_principal_fold_canonical(entries, acc0);
}

/// Every slot the principal walk fills comes out of a set decode.
proof fn lemma_principal_fold_canonical(entries: Seq<(Seq<char>, JsonData)>, acc: PrincAcc)
    requires
        spec_principal_fold(entries, acc) is Ok,
        principal_data_canonical(princ_acc_data(acc)),
    ensures
        principal_data_canonical(princ_acc_data(spec_principal_fold(entries, acc)->Ok_0)),
    decreases entries.len(),
{
    if entries.len() == 0 {
    } else {
        let (k, v) = entries[0];
        if k == "AWS"@ && !(acc.aws is Some) {
            lemma_arn_set_canonical(v);
            lemma_principal_fold_canonical(
                entries.drop_first(),
                PrincAcc { aws: Option::Some(spec_arn_set(v)->Ok_0), ..acc },
            );
        } else if k == "CanonicalUser"@ && !(acc.canonical_user is Some) {
            lemma_string_set_canonical(v);
            lemma_principal_fold_canonical(
                entries.drop_first(),
                PrincAcc { canonical_user: Option::Some(spec_string_set(v)->Ok_0), ..acc },
            );
        } else if k == "Federated"@ && !(acc.federated is Some) {
            lemma_string_set_canonical(v);
            lemma_principal_fold_canonical(
                entries.drop_first(),
                PrincAcc { federated: Option::Some(spec_string_set(v)->Ok_0), ..acc },
            );
        } else if k == "Service"@ && !(acc.service is Some) {
            lemma_string_set_canonical(v);
            lemma_principal_fold_canonical(
                entries.drop_first(),
                PrincAcc { service: Option::Some(spec_string_set(v)->Ok_0), ..acc },
            );
        }
    }
}

/// A decoded operator block has pairwise distinct keys.
proof fn lemma_cond_block_canonical(d: JsonData)
    requires
        spec_decode_cond_block(d) is Ok,
    ensures
        forall|p: int, q: int|
            0 <= p < q < spec_decode_cond_block(d)->Ok_0.len() ==> (
            #[trigger] spec_decode_cond_block(d)->Ok_0[p]).0 != (
            #[trigger] spec_decode_cond_block(d)->Ok_0[q]).0,
{
    lemma_cond_block_fold_canonical(d->Obj_0, Seq::empty());
}

proof fn lemma_cond_block_fold_canonical(
    entries: Seq<(Seq<char>, JsonData)>,
    acc: Seq<(Seq<char>, Seq<Seq<char>>)>,
)
    requires
        spec_cond_block_fold(entries, acc) is Ok,
        forall|p: int, q: int| 0 <= p < q < acc.len() ==> (#[trigger] acc[p]).0 != (
        #[trigger] acc[q]).0,
    ensures
        forall|p: int, q: int|
            0 <= p < q < spec_cond_block_fold(entries, acc)->Ok_0.len() ==> (
            #[trigger] spec_cond_block_fold(entries, acc)->Ok_0[p]).0 != (
            #[trigger] spec_cond_block_fold(entries, acc)->Ok_0[q]).0,
    decreases entries.len(),
{
    if entries.len() == 0 {
    } else {
        let (k, v) = entries[0];
        let vals = spec_string_list(v)->Ok_0;
        lemma_upsert_wf(acc, k, vals);
        lemma_cond_block_fold_canonical(entries.drop_first(), spec_upsert(acc, k, vals));
    }
}

/// A decoded condition table is well formed.
proof fn lemma_decode_condition_canonical(d: JsonData)
    requires
        spec_decode_condition(d) is Ok,
    ensures
        cond_data_wf(spec_decode_condition(d)->Ok_0),
{
    lemma_cond_fold_canonical(d->Obj_0, Seq::empty());
}

proof fn lemma_cond_fold_canonical(entries: Seq<(Seq<char>, JsonData)>, acc: CondData)
    requires
        spec_cond_fold(entries, acc) is Ok,
        cond_data_wf(acc),
    ensures
        cond_data_wf(spec_cond_fold(entries, acc)->Ok_0),
    decreases entries.len(),
{
    if entries.len() == 0 {
    } else {
        let (k, v) = entries[0];
        let block = spec_decode_cond_block(v)->Ok_0;
        lemma_cond_block_canonical(v);
        lemma_upsert_wf(acc, k, block);
        let acc2 = spec_upsert(acc, k, block);
        lemma_upsert_keys(acc, k, block);
        assert forall|i: int, p: int, q: int|
            0 <= i < acc2.len() && 0 <= p < q < (#[trigger] acc2[i]).1.len() implies (
        #[trigger] acc2[i].1[p]).0 != (#[trigger] acc2[i].1[q]).0 by {
            lemma_upsert_vals(acc, k, block, i);
        }
        lemma_cond_fold_canonical(entries.drop_first(), acc2);
    }
}

/// Every value after an upsert is the new one or one already present.
proof fn lemma_upsert_vals<V>(s: Seq<(Seq<char>, V)>, k: Seq<char>, x: V, i: int)
    requires
        0 <= i < spec_upsert(s, k, x).len(),
    ensures
        spec_upsert(s, k, x)[i].1 == x || exists|m: int|
            0 <= m < s.len() && s[m].1 == spec_upsert(s, k, x)[i].1,
    decreases s.len(),
{
    let u = spec_upsert(s, k, x);
    if s.len() == 0 {
    } else if s[0].0 == k {
        if i > 0 {
            assert(s[i].1 == u[i].1);
        }
    } else {
        if i == 0 {
            assert(s[0].1 == u[0].1);
        } else {
            lemma_upsert_vals(s.drop_first(), k, x, i - 1);
            let rest = spec_upsert(s.drop_first(), k, x);
            assert(u[i] == rest[i - 1]);
            if rest[i - 1].1 != x {
                let m = choose|m: int|
                    0 <= m < s.drop_first().len() && s.drop_first()[m].1 == rest[i - 1].1;
                assert(s[m + 1].1 == rest[i - 1].1);
            }
        }
    }
}

/// A decoded statement is in canonical shape.
proof fn lemma_decode_statement_canonical(d: JsonData)
    requires
        spec_decode_statement(d) is Ok,
    ensures
        stmt_data_canonical(spec_decode_statement(d)->Ok_0),
{
    let acc0 = StmtAcc {
        sid: Option::None,
        effect: Option::None,
        principal: Option::None,
        not_principal: Option::None,
        action: Option::None,
        not_action: Option::None,
        resource: Option::None,
        not_resource: Option::None,
        condition: Option::None,
    };
    lemma_stmt_fold_canonical(d->Obj_0, acc0);
    let acc = spec_stmt_fold(d->Obj_0, acc0)->Ok_0;
    let s = spec_decode_statement(d)->Ok_0;
    assert(s == stmt_acc_data(acc, acc.effect->Some_0));
}

/// The slots a statement walk fills are all canonical.
proof fn lemma_stmt_fold_canonical(entries: Seq<(Seq<char>, JsonData)>, acc: StmtAcc)
    requires
        spec_stmt_fold(entries, acc) is Ok,
        stmt_acc_canonical(acc),
    ensures
        stmt_acc_canonical(spec_stmt_fold(entries, acc)->Ok_0),
    decreases entries.len(),
{
    if entries.len() == 0 {
    } else {
        let (k, v) = entries[0];
        let rest = entries.drop_first();
        if k == "Sid"@ && !(acc.sid is Some) {
            lemma_stmt_fold_canonical(
                rest,
                StmtAcc { sid: Option::Some(spec_text_field(v)->Ok_0), ..acc },
            );
        } else if k == "Effect"@ && !(acc.effect is Some) {
            lemma_stmt_fold_canonical(
                rest,
                StmtAcc { effect: Option::Some(spec_effect_field(v)->Ok_0), ..acc },
            );
        } else if k == "Principal"@ && !(acc.principal is Some) {
            lemma_decode_principal_canonical(v);
            lemma_stmt_fold_canonical(
                rest,
                StmtAcc { principal: Option::Some(spec_decode_principal(v)->Ok_0), ..acc },
            );
        } else if k == "NotPrincipal"@ && !(acc.not_principal is Some) {
            lemma_decode_principal_canonical(v);
            lemma_stmt_fold_canonical(
                rest,
                StmtAcc { not_principal: Option::Some(spec_decode_principal(v)->Ok_0), ..acc },
            );
        } else if k == "Action"@ && !(acc.action is Some) {
            lemma_action_set_canonical(v);
            lemma_stmt_fold_canonical(
                rest,
                StmtAcc { action: Option::Some(spec_action_set(v)->Ok_0), ..acc },
            );
        } else if k == "NotAction"@ && !(acc.not_action is Some) {
            lemma_action_set_canonical(v);
            lemma_stmt_fold_canonical(
                rest,
                StmtAcc { not_action: Option::Some(spec_action_set(v)->Ok_0), ..acc },
            );
        } else if k == "Resource"@ && !(acc.resource is Some) {
            lemma_resource_set_canonical(v);
            lemma_stmt_fold_canonical(
                rest,
                StmtAcc { resource: Option::Some(spec_resource_set(v)->Ok_0), ..acc },
            );
        } else if k == "NotResource"@ && !(acc.not_resource is Some) {
            lemma_resource_set_canonical(v);
            lemma_stmt_fold_canonical(
                rest,
                StmtAcc { not_resource: Option::Some(spec_resource_set(v)->Ok_0), ..acc },
            );
        } else if k == "Condition"@ && !(acc.condition is Some) {
            lemma_decode_condition_canonical(v);
            lemma_stmt_fold_canonical(
                rest,
                StmtAcc { condition: Option::Some(spec_decode_condition(v)->Ok_0), ..acc },
            );
        }
    }
}

/// The canonical-shape reading of partially filled statement slots.
pub open spec fn stmt_acc_canonical(acc: StmtAcc) -> bool {
    &&& match acc.principal {
        Option::Some(p) => principal_data_canonical(p),
        Option::None => true,
    }
    &&& match acc.not_principal {
        Option::Some(p) => principal_data_canonical(p),
        Option::None => true,
    }
    &&& match acc.action {
        Option::Some(s) => strictly_sorted(|a: ActionData, b: ActionData| action_cmp(a, b), s)
            && forall|i: int| 0 <= i < s.len() ==> action_data_valid(#[trigger] s[i]),
        Option::None => true,
    }
    &&& match acc.not_action {
        Option::Some(s) => strictly_sorted(|a: ActionData, b: ActionData| action_cmp(a, b), s)
            && forall|i: int| 0 <= i < s.len() ==> action_data_valid(#[trigger] s[i]),
        Option::None => true,
    }
    &&& match acc.resource {
        Option::Some(s) => strictly_sorted(
            |a: ResourceData, b: ResourceData| resource_cmp(a, b),
            s,
        ) && forall|i: int| 0 <= i < s.len() ==> resource_data_valid(#[trigger] s[i]),
        Option::None => true,
    }
    &&& match acc.not_resource {
        Option::Some(s) => strictly_sorted(
            |a: ResourceData, b: ResourceData| resource_cmp(a, b),
            s,
        ) && forall|i: int| 0 <= i < s.len() ==> resource_data_valid(#[trigger] s[i]),
        Option::None => true,
    }
    &&& match acc.condition {
        Option::Some(cd) => cond_data_wf(cd),
        Option::None => true,
    }
}

/// Every statement a policy decode yields is in canonical shape.
proof fn lemma_stmt_list_fold_canonical(items: Seq<JsonData>, acc: Seq<StatementData>)
    requires
        spec_stmt_list_fold(items, acc) is Ok,
        forall|i: int| 0 <= i < acc.len() ==> stmt_data_canonical(#[trigger] acc[i]),
    ensures
        forall|i: int|
            0 <= i < spec_stmt_list_fold(items, acc)->Ok_0.len() ==> stmt_data_canonical(
                #[trigger] spec_stmt_list_fold(items, acc)->Ok_0[i],
            ),
    decreases items.len(),
{
    if items.len() == 0 {
    } else {
        lemma_decode_statement_canonical(items[0]);
        let s = spec_decode_statement(items[0])->Ok_0;
        assert forall|i: int| 0 <= i < acc.push(s).len() implies stmt_data_canonical(
            #[trigger] acc.push(s)[i],
        ) by {
            if i < acc.len() {
                assert(acc.push(s)[i] == acc[i]);
            }
        }
        lemma_stmt_list_fold_canonical(items.drop_first(), acc.push(s));
    }
}

/// Whatever the policy decoder accepts has canonical statements.
proof fn lemma_policy_fold_canonical(entries: Seq<(Seq<char>, JsonData)>, acc: PolicyAcc)
    requires
        spec_policy_fold(entries, acc) is Ok,
        match acc.statement {
            Option::Some(l) => forall|i: int|
                0 <= i < l.len() ==> stmt_data_canonical(#[trigger] l[i]),
            Option::None => true,
        },
    ensures
        match spec_policy_fold(entries, acc)->Ok_0.statement {
            Option::Some(l) => forall|i: int|
                0 <= i < l.len() ==> stmt_data_canonical(#[trigger] l[i]),
            Option::None => true,
        },
    decreases entries.len(),
{
    if entries.len() == 0 {
    } else {
        let (k, v) = entries[0];
        let rest = entries.drop_first();
        if k == "Version"@ && !(acc.version is Some) {
            lemma_policy_fold_canonical(
                rest,
                PolicyAcc { version: Option::Some(spec_text_field(v)->Ok_0), ..acc },
            );
        } else if k == "Id"@ && !(acc.id is Some) {
            lemma_policy_fold_canonical(
                rest,
                PolicyAcc { id: Option::Some(spec_text_field(v)->Ok_0), ..acc },
            );
        } else if k == "Statement"@ && !(acc.statement is Some) {
            lemma_stmt_list_fold_canonical(invariable::spec_unwrap(v), Seq::empty());
            lemma_policy_fold_canonical(
                rest,
                PolicyAcc { statement: Option::Some(spec_statement_list(v)->Ok_0), ..acc },
            );
        } else if (k == "Version"@ && acc.version is Some) || (k == "Id"@ && acc.id is Some) || (k
            == "Statement"@ && acc.statement is Some) {
        } else {
            lemma_policy_fold_canonical(rest, acc);
        }
    }
}

/// Whatever the policy decoder accepts is made of canonical statements.
pub proof fn lemma_decode_policy_canonical(d: JsonData)
    requires
        spec_decode_policy(d) is Ok,
    ensures
        policy_data_all_canonical(spec_decode_policy(d)->Ok_0),
{
    let acc0 = PolicyAcc { version: Option::None, id: Option::None, statement: Option::None };
    lemma_policy_fold_canonical(d->Obj_0, acc0);
}

/// The sorted statements are the decoded ones, so they stay canonical.
proof fn lemma_sort_preserves_canonical(stmts: Seq<StatementData>)
    requires
        forall|i: int| 0 <= i < stmts.len() ==> stmt_data_canonical(#[trigger] stmts[i]),
    ensures
        forall|i: int|
            0 <= i < spec_sort_stmts(stmts).len() ==> stmt_data_canonical(
                #[trigger] spec_sort_stmts(stmts)[i],
            ),
{
    broadcast use vstd::seq_lib::group_to_multiset_ensures;

    crate::sortstmt::lemma_sort_stmts_permutation(stmts);
    let sorted = spec_sort_stmts(stmts);
    assert forall|i: int| 0 <= i < sorted.len() implies stmt_data_canonical(
        #[trigger] sorted[i],
    ) by {
        assert(sorted.contains(sorted[i]));
        assert(sorted.to_multiset().count(sorted[i]) > 0);
        assert(stmts.to_multiset().count(sorted[i]) > 0);
        assert(stmts.contains(sorted[i]));
        let j = choose|j: int| 0 <= j < stmts.len() && stmts[j] == sorted[i];
        assert(stmt_data_canonical(stmts[j]));
    }
}

/// Canonicalizing is idempotent, with nothing assumed: one pass over any
/// accepted policy document settles it, and a second pass returns the
/// canonical tree unchanged.
pub proof fn lemma_canonicalize_settles(d: JsonData)
    requires
        spec_canonicalize(d) is Ok,
    ensures
        spec_canonicalize(spec_canonicalize(d)->Ok_0) == spec_canonicalize(d),
{
    let p = spec_decode_policy(d)->Ok_0;
    lemma_decode_policy_canonical(d);
    lemma_sort_preserves_canonical(p.statement);
    lemma_canonicalize_idempotent(d);
}

} // verus!
