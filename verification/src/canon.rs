use vstd::prelude::*;
use vstd::string::StringExecFns;
use crate::jsonval::{JsonVal, JsonData, num_free, keys_unique, print_safe, json_depth,
    items_depth, entries_depth, lemma_items_depth_bound, lemma_entries_depth_bound};
use crate::model::{Policy, PolicyData, Statement, StatementData, CondData, stmts_model};
use crate::decode::{decode_policy, spec_decode_policy};
use crate::encode::{spec_string_texts, spec_action_texts, spec_resource_texts, spec_arn_texts,
    spec_encode_action_set, spec_encode_resource_set, spec_encode_arn_set, spec_encode_string_set,
    spec_encode_string_list, spec_cond_block_entries, spec_encode_cond_block, spec_cond_entries,
    spec_encode_condition, spec_principal_entries, spec_encode_principal, spec_statement_entries,
    spec_encode_statement, spec_statement_items, spec_policy_entries, spec_encode_policy,
    encode_policy};
use crate::sortstmt::{spec_sort_stmts, sort_statements};
use crate::jsonio::{json_parse, json_print, spec_json_of_text, spec_pretty_text, nums_canonical,
    lemma_num_free_nums_canonical};
use crate::invariable;

verus! {

broadcast use vstd::seq::group_seq_axioms, vstd::std_specs::vec::group_vec_axioms, vstd::string::group_string_axioms;

/// A condition table model is well formed: operator names pairwise
/// distinct, and each block's keys pairwise distinct.
pub open spec fn cond_data_wf(cd: CondData) -> bool {
    &&& forall|i: int, j: int| 0 <= i < j < cd.len() ==> (#[trigger] cd[i]).0 != (#[trigger] cd[j]).0
    &&& forall|i: int, p: int, q: int|
        0 <= i < cd.len() && 0 <= p < q < (#[trigger] cd[i]).1.len() ==> (#[trigger] cd[i].1[p]).0
            != (#[trigger] cd[i].1[q]).0
}

/// A statement model is well formed for printing: its condition table is.
pub open spec fn stmt_data_wf(s: StatementData) -> bool {
    cond_data_wf(s.condition)
}

/// A policy model is well formed for printing: every statement is.
pub open spec fn policy_data_wf(p: PolicyData) -> bool {
    forall|i: int| 0 <= i < p.statement.len() ==> stmt_data_wf(#[trigger] p.statement[i])
}

/// A well-formed policy value has a well-formed model.
pub proof fn lemma_policy_wf_model(p: Policy)
    requires
        p.wf(),
    ensures
        policy_data_wf(p.model()),
{
    assert forall|i: int| 0 <= i < p.model().statement.len() implies stmt_data_wf(
        #[trigger] p.model().statement[i],
    ) by {
        let s = p.statement@[i];
        assert(s.wf());
        assert(p.model().statement[i] == s.model());
        assert forall|a: int, pp: int, q: int|
            0 <= a < s.model().condition.len() && 0 <= pp < q < (
            #[trigger] s.model().condition[a]).1.len() implies (
        #[trigger] s.model().condition[a].1[pp]).0 != (#[trigger] s.model().condition[a].1[q]).0 by {
            assert(s.condition.entries@[a].1.wf());
            assert(s.model().condition[a].1 == s.condition.entries@[a].1.model());
        }
    }
}

/// A collection of text scalars prints safely, wrapped or not.
proof fn lemma_wrap_texts_safe(items: Seq<JsonData>)
    requires
        forall|i: int| 0 <= i < items.len() ==> (#[trigger] items[i]) is Str,
    ensures
        num_free(invariable::spec_wrap(items)),
        keys_unique(invariable::spec_wrap(items)),
{
    assert forall|i: int| 0 <= i < items.len() implies num_free(#[trigger] items[i]) by {
        assert(items[i] is Str);
    }
    assert forall|i: int| 0 <= i < items.len() implies keys_unique(#[trigger] items[i]) by {
        assert(items[i] is Str);
    }
    if items.len() == 1 {
        assert(num_free(items[0]));
        assert(keys_unique(items[0]));
    }
}

proof fn lemma_encode_sets_safe(s: StatementData)
    ensures
        num_free(spec_encode_action_set(s.action)) && keys_unique(spec_encode_action_set(s.action)),
        num_free(spec_encode_action_set(s.not_action)) && keys_unique(
            spec_encode_action_set(s.not_action),
        ),
        num_free(spec_encode_resource_set(s.resource)) && keys_unique(
            spec_encode_resource_set(s.resource),
        ),
        num_free(spec_encode_resource_set(s.not_resource)) && keys_unique(
            spec_encode_resource_set(s.not_resource),
        ),
{
    lemma_wrap_texts_safe(spec_action_texts(s.action));
    lemma_wrap_texts_safe(spec_action_texts(s.not_action));
    lemma_wrap_texts_safe(spec_resource_texts(s.resource));
    lemma_wrap_texts_safe(spec_resource_texts(s.not_resource));
}

/// An encoded principal prints safely: four fixed distinct keys, text
/// values only.
proof fn lemma_encode_principal_safe(p: crate::model::PrincipalData)
    ensures
        num_free(spec_encode_principal(p)),
        keys_unique(spec_encode_principal(p)),
{
    reveal_strlit("AWS");
    reveal_strlit("CanonicalUser");
    reveal_strlit("Federated");
    reveal_strlit("Service");
    lemma_wrap_texts_safe(spec_arn_texts(p.aws));
    lemma_wrap_texts_safe(spec_string_texts(p.canonical_user));
    lemma_wrap_texts_safe(spec_string_texts(p.federated));
    lemma_wrap_texts_safe(spec_string_texts(p.service));
    let entries = spec_principal_entries(p);
    assert forall|i: int| 0 <= i < entries.len() implies num_free(#[trigger] entries[i].1)
        && keys_unique(entries[i].1) by {}
    assert forall|i: int, j: int| 0 <= i < j < entries.len() implies (#[trigger] entries[i]).0 != (
    #[trigger] entries[j]).0 by {
        assert(entries[i].0.len() != entries[j].0.len());
    }
}

/// An encoded condition prints safely when its model is well formed.
proof fn lemma_encode_condition_safe(cd: CondData)
    requires
        cond_data_wf(cd),
    ensures
        num_free(spec_encode_condition(cd)),
        keys_unique(spec_encode_condition(cd)),
{
    let entries = spec_cond_entries(cd);
    assert forall|i: int| 0 <= i < entries.len() implies num_free(#[trigger] entries[i].1)
        && keys_unique(entries[i].1) by {
        let block = spec_cond_block_entries(cd[i].1);
        assert forall|q: int| 0 <= q < block.len() implies num_free(#[trigger] block[q].1)
            && keys_unique(block[q].1) by {
            lemma_wrap_texts_safe(spec_string_texts(cd[i].1[q].1));
        }
        assert forall|pp: int, q: int| 0 <= pp < q < block.len() implies (
        #[trigger] block[pp]).0 != (#[trigger] block[q]).0 by {
            assert(block[pp].0 == cd[i].1[pp].0);
            assert(block[q].0 == cd[i].1[q].0);
        }
    }
    assert forall|i: int, j: int| 0 <= i < j < entries.len() implies (#[trigger] entries[i]).0 != (
    #[trigger] entries[j]).0 by {
        assert(entries[i].0 == cd[i].0);
        assert(entries[j].0 == cd[j].0);
    }
}

/// An encoded statement prints safely when its model is well formed.
#[verifier::rlimit(100)]
proof fn lemma_encode_statement_safe(s: StatementData)
    requires
        stmt_data_wf(s),
    ensures
        num_free(spec_encode_statement(s)),
        keys_unique(spec_encode_statement(s)),
{
    reveal_strlit("Sid");
    reveal_strlit("Effect");
    reveal_strlit("Principal");
    reveal_strlit("NotPrincipal");
    reveal_strlit("Action");
    reveal_strlit("NotAction");
    reveal_strlit("Resource");
    reveal_strlit("NotResource");
    reveal_strlit("Condition");
    lemma_encode_sets_safe(s);
    match s.principal {
        Option::Some(p) => lemma_encode_principal_safe(p),
        Option::None => {},
    }
    match s.not_principal {
        Option::Some(p) => lemma_encode_principal_safe(p),
        Option::None => {},
    }
    lemma_encode_condition_safe(s.condition);
    let entries = spec_statement_entries(s);
    assert forall|i: int| 0 <= i < entries.len() implies num_free(#[trigger] entries[i].1)
        && keys_unique(entries[i].1) by {}
    let e1 = match s.sid {
        Option::Some(t) => Seq::empty().push(("Sid"@, JsonData::Str(t))),
        Option::None => Seq::empty(),
    };
    let e2 = e1.push(("Effect"@, JsonData::Str(crate::idents::spec_format_effect(s.effect))));
    let e3 = match s.principal {
        Option::Some(p) => e2.push(("Principal"@, spec_encode_principal(p))),
        Option::None => e2,
    };
    let e4 = match s.not_principal {
        Option::Some(p) => e3.push(("NotPrincipal"@, spec_encode_principal(p))),
        Option::None => e3,
    };
    let e5 = if s.action.len() == 0 {
        e4
    } else {
        e4.push(("Action"@, spec_encode_action_set(s.action)))
    };
    let e6 = if s.not_action.len() == 0 {
        e5
    } else {
        e5.push(("NotAction"@, spec_encode_action_set(s.not_action)))
    };
    let e7 = if s.resource.len() == 0 {
        e6
    } else {
        e6.push(("Resource"@, spec_encode_resource_set(s.resource)))
    };
    let e8 = if s.not_resource.len() == 0 {
        e7
    } else {
        e7.push(("NotResource"@, spec_encode_resource_set(s.not_resource)))
    };
    let e9 = if s.condition.len() == 0 {
        e8
    } else {
        e8.push(("Condition"@, spec_encode_condition(s.condition)))
    };
    assert(entries == e9);
    assert("Sid"@.len() == 3);
    assert("Effect"@.len() == 6);
    assert("Principal"@.len() == 9);
    assert("NotPrincipal"@.len() == 12);
    assert("Action"@.len() == 6);
    assert("NotAction"@.len() == 9);
    assert("Resource"@.len() == 8);
    assert("NotResource"@.len() == 11);
    assert("Condition"@.len() == 9);
    assert("Effect"@[0] == 'E' && "Action"@[0] == 'A');
    assert("Principal"@[0] == 'P' && "NotAction"@[0] == 'N' && "Condition"@[0] == 'C');
    assert(stmt_key_rank("Sid"@) == 0);
    assert(stmt_key_rank("Effect"@) == 1);
    assert(stmt_key_rank("Principal"@) == 2);
    assert(stmt_key_rank("NotPrincipal"@) == 3);
    assert(stmt_key_rank("Action"@) == 4);
    assert(stmt_key_rank("NotAction"@) == 5);
    assert(stmt_key_rank("Resource"@) == 6);
    assert(stmt_key_rank("NotResource"@) == 7);
    assert(stmt_key_rank("Condition"@) == 8);
    assert(ranked_below(e1, 1) && ranks_increasing(e1));
    assert(ranked_below(e2, 2) && ranks_increasing(e2)) by {
        lemma_rank_push(e1, ("Effect"@, JsonData::Str(crate::idents::spec_format_effect(s.effect))), 1);
    }
    assert(ranked_below(e3, 3) && ranks_increasing(e3)) by {
        if s.principal is Some {
            lemma_rank_push(e2, ("Principal"@, spec_encode_principal(s.principal->Some_0)), 2);
        }
    }
    assert(ranked_below(e4, 4) && ranks_increasing(e4)) by {
        if s.not_principal is Some {
            lemma_rank_push(
                e3,
                ("NotPrincipal"@, spec_encode_principal(s.not_principal->Some_0)),
                3,
            );
        }
    }
    assert(ranked_below(e5, 5) && ranks_increasing(e5)) by {
        if s.action.len() != 0 {
            lemma_rank_push(e4, ("Action"@, spec_encode_action_set(s.action)), 4);
        }
    }
    assert(ranked_below(e6, 6) && ranks_increasing(e6)) by {
        if s.not_action.len() != 0 {
            lemma_rank_push(e5, ("NotAction"@, spec_encode_action_set(s.not_action)), 5);
        }
    }
    assert(ranked_below(e7, 7) && ranks_increasing(e7)) by {
        if s.resource.len() != 0 {
            lemma_rank_push(e6, ("Resource"@, spec_encode_resource_set(s.resource)), 6);
        }
    }
    assert(ranked_below(e8, 8) && ranks_increasing(e8)) by {
        if s.not_resource.len() != 0 {
            lemma_rank_push(e7, ("NotResource"@, spec_encode_resource_set(s.not_resource)), 7);
        }
    }
    assert(ranked_below(e9, 9) && ranks_increasing(e9)) by {
        if s.condition.len() != 0 {
            lemma_rank_push(e8, ("Condition"@, spec_encode_condition(s.condition)), 8);
        }
    }
    assert forall|i: int, j: int| 0 <= i < j < entries.len() implies (#[trigger] entries[i]).0 != (
    #[trigger] entries[j]).0 by {
        assert(stmt_key_rank(e9[i].0) < stmt_key_rank(e9[j].0));
    }
}

/// The place of a statement key in the canonical field order.
spec fn stmt_key_rank(k: Seq<char>) -> int {
    if k == "Sid"@ {
        0
    } else if k == "Effect"@ {
        1
    } else if k == "Principal"@ {
        2
    } else if k == "NotPrincipal"@ {
        3
    } else if k == "Action"@ {
        4
    } else if k == "NotAction"@ {
        5
    } else if k == "Resource"@ {
        6
    } else if k == "NotResource"@ {
        7
    } else if k == "Condition"@ {
        8
    } else {
        9
    }
}

/// Every key rank in the entries is under the bound.
spec fn ranked_below(es: Seq<(Seq<char>, JsonData)>, bound: int) -> bool {
    forall|idx: int| 0 <= idx < es.len() ==> stmt_key_rank((#[trigger] es[idx]).0) < bound
}

/// Key ranks are strictly increasing along the entries.
spec fn ranks_increasing(es: Seq<(Seq<char>, JsonData)>) -> bool {
    forall|i: int, j: int|
        0 <= i < j < es.len() ==> stmt_key_rank((#[trigger] es[i]).0) < stmt_key_rank(
            (#[trigger] es[j]).0,
        )
}

/// Appending an entry whose key rank is the bound keeps ranks increasing.
proof fn lemma_rank_push(es: Seq<(Seq<char>, JsonData)>, e: (Seq<char>, JsonData), bound: int)
    requires
        ranked_below(es, bound),
        ranks_increasing(es),
        stmt_key_rank(e.0) == bound,
    ensures
        ranked_below(es.push(e), bound + 1),
        ranks_increasing(es.push(e)),
{
    assert forall|i: int, j: int| 0 <= i < j < es.push(e).len() implies stmt_key_rank(
        (#[trigger] es.push(e)[i]).0,
    ) < stmt_key_rank((#[trigger] es.push(e)[j]).0) by {
        if j < es.len() {
            assert(es.push(e)[i] == es[i] && es.push(e)[j] == es[j]);
        } else {
            assert(es.push(e)[j] == e);
            assert(es.push(e)[i] == es[i]);
        }
    }
}

/// An encoded policy prints safely when its model is well formed: no
/// number leaves and no repeated object key anywhere.
pub proof fn lemma_encode_policy_safe(p: PolicyData)
    requires
        policy_data_wf(p),
    ensures
        print_safe(spec_encode_policy(p)),
{
    reveal_strlit("Version");
    reveal_strlit("Id");
    reveal_strlit("Statement");
    let items = spec_statement_items(p.statement);
    assert forall|i: int| 0 <= i < items.len() implies num_free(#[trigger] items[i])
        && keys_unique(items[i]) by {
        lemma_encode_statement_safe(p.statement[i]);
    }
    let entries = spec_policy_entries(p);
    assert forall|i: int| 0 <= i < entries.len() implies num_free(#[trigger] entries[i].1)
        && keys_unique(entries[i].1) by {}
    assert forall|i: int, j: int| 0 <= i < j < entries.len() implies (#[trigger] entries[i]).0 != (
    #[trigger] entries[j]).0 by {
        assert(entries[i].0.len() != entries[j].0.len());
    }
}

/// A wrapped collection of text scalars is at most one container deep.
proof fn lemma_wrap_texts_depth(items: Seq<JsonData>)
    requires
        forall|i: int| 0 <= i < items.len() ==> (#[trigger] items[i]) is Str,
    ensures
        json_depth(invariable::spec_wrap(items)) <= 1,
{
    assert forall|i: int| 0 <= i < items.len() implies json_depth(#[trigger] items[i]) <= 0 by {
        assert(items[i] is Str);
    }
    lemma_items_depth_bound(items, 0);
    if items.len() == 1 {
        assert(json_depth(items[0]) <= 0);
    }
}

/// An encoded principal is at most two containers deep.
proof fn lemma_encode_principal_depth(p: crate::model::PrincipalData)
    ensures
        json_depth(spec_encode_principal(p)) <= 2,
{
    lemma_wrap_texts_depth(spec_arn_texts(p.aws));
    lemma_wrap_texts_depth(spec_string_texts(p.canonical_user));
    lemma_wrap_texts_depth(spec_string_texts(p.federated));
    lemma_wrap_texts_depth(spec_string_texts(p.service));
    let entries = spec_principal_entries(p);
    assert forall|i: int| 0 <= i < entries.len() implies json_depth((#[trigger] entries[i]).1)
        <= 1 by {}
    lemma_entries_depth_bound(entries, 1);
}

/// An encoded condition is at most three containers deep.
proof fn lemma_encode_condition_depth(cd: CondData)
    ensures
        json_depth(spec_encode_condition(cd)) <= 3,
{
    let entries = spec_cond_entries(cd);
    assert forall|i: int| 0 <= i < entries.len() implies json_depth((#[trigger] entries[i]).1)
        <= 2 by {
        let block = spec_cond_block_entries(cd[i].1);
        assert forall|q: int| 0 <= q < block.len() implies json_depth((#[trigger] block[q]).1)
            <= 1 by {
            lemma_wrap_texts_depth(spec_string_texts(cd[i].1[q].1));
        }
        lemma_entries_depth_bound(block, 1);
    }
    lemma_entries_depth_bound(entries, 2);
}

/// An encoded statement is at most four containers deep.
#[verifier::rlimit(100)]
proof fn lemma_encode_statement_depth(s: StatementData)
    ensures
        json_depth(spec_encode_statement(s)) <= 4,
{
    lemma_wrap_texts_depth(spec_action_texts(s.action));
    lemma_wrap_texts_depth(spec_action_texts(s.not_action));
    lemma_wrap_texts_depth(spec_resource_texts(s.resource));
    lemma_wrap_texts_depth(spec_resource_texts(s.not_resource));
    match s.principal {
        Option::Some(p) => lemma_encode_principal_depth(p),
        Option::None => {},
    }
    match s.not_principal {
        Option::Some(p) => lemma_encode_principal_depth(p),
        Option::None => {},
    }
    lemma_encode_condition_depth(s.condition);
    let entries = spec_statement_entries(s);
    assert forall|i: int| 0 <= i < entries.len() implies json_depth((#[trigger] entries[i]).1)
        <= 3 by {}
    lemma_entries_depth_bound(entries, 3);
}

/// An encoded policy is at most six containers deep, far inside the
/// printer's limit.
pub proof fn lemma_encode_policy_depth(p: PolicyData)
    ensures
        json_depth(spec_encode_policy(p)) <= 6,
{
    let items = spec_statement_items(p.statement);
    assert forall|i: int| 0 <= i < items.len() implies json_depth(#[trigger] items[i]) <= 4 by {
        lemma_encode_statement_depth(p.statement[i]);
    }
    lemma_items_depth_bound(items, 4);
    let entries = spec_policy_entries(p);
    assert forall|i: int| 0 <= i < entries.len() implies json_depth((#[trigger] entries[i]).1)
        <= 5 by {}
    lemma_entries_depth_bound(entries, 5);
}

/// The canonical policy of a decoded one: the same fields with the
/// statements sorted.
pub open spec fn spec_canonical_policy(p: PolicyData) -> PolicyData {
    PolicyData { version: p.version, id: p.id, statement: spec_sort_stmts(p.statement) }
}

/// What canonicalizing a policy document tree yields: decode it
/// strictly, sort the statements, encode the result — or the exact
/// decode error.
pub open spec fn spec_canonicalize(d: JsonData) -> Result<JsonData, Seq<char>> {
    match spec_decode_policy(d) {
        Result::Err(e) => Result::Err(e),
        Result::Ok(p) => Result::Ok(spec_encode_policy(spec_canonical_policy(p))),
    }
}

/// Canonicalize a policy document tree, exactly as `spec_canonicalize`
/// says; a canonical tree always prints safely.
pub fn canonicalize_policy(v: JsonVal) -> (r: Result<JsonVal, String>)
    ensures
        match r {
            Result::Ok(out) => spec_canonicalize(v.model()) == Result::<
                JsonData,
                Seq<char>,
            >::Ok(out.model()) && print_safe(out.model()) && json_depth(out.model()) <= 6,
            Result::Err(e) => spec_canonicalize(v.model()) == Result::<
                JsonData,
                Seq<char>,
            >::Err(e@),
        },
{
    let p = match decode_policy(v) {
        Result::Ok(p) => p,
        Result::Err(e) => {
            return Result::Err(e);
        },
    };
    let Policy { version, id, statement } = p;
    let ghost pm = p.model();
    let sorted = sort_statements(statement);
    let q = Policy { version, id, statement: sorted };
    proof {
        assert(q.model().version == pm.version);
        assert(q.model().id == pm.id);
        assert(q.model().statement == spec_sort_stmts(pm.statement));
        assert(q.wf());
        lemma_policy_wf_model(q);
        lemma_encode_policy_safe(q.model());
        lemma_encode_policy_depth(q.model());
    }
    let out = encode_policy(&q);
    Result::Ok(out)
}

/// What canonicalizing a policy text yields when the text is JSON at
/// all: the canonical tree's pretty text with one trailing newline. The
/// output parses back to the canonical tree, which a second pass leaves
/// unchanged (`crate::roundtrip::lemma_canonicalize_settles`), so running
/// this twice gives the same bytes.
pub fn canonicalize_policy_text(s: &str) -> (r: Result<String, String>)
    ensures
        match r {
            Result::Ok(out) => {
                &&& spec_json_of_text(s@) is Some
                &&& spec_canonicalize(spec_json_of_text(s@)->Some_0) is Ok
                &&& out@ == spec_pretty_text(
                    spec_canonicalize(spec_json_of_text(s@)->Some_0)->Ok_0,
                ) + "\n"@
                &&& spec_json_of_text(out@) == Option::Some(
                    spec_canonicalize(spec_json_of_text(s@)->Some_0)->Ok_0,
                )
            },
            Result::Err(e) => spec_json_of_text(s@) is None || spec_canonicalize(
                spec_json_of_text(s@)->Some_0,
            ) == Result::<JsonData, Seq<char>>::Err(e@),
        },
{
    let t = match json_parse(s) {
        Result::Ok(t) => t,
        Result::Err(e) => {
            return Result::Err(e);
        },
    };
    let c = match canonicalize_policy(t) {
        Result::Ok(c) => c,
        Result::Err(e) => {
            return Result::Err(e);
        },
    };
    proof {
        lemma_num_free_nums_canonical(c.model());
    }
    let mut out = json_print(&c);
    out.append("\n");
    Result::Ok(out)
}

} // verus!
