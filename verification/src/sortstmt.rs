use vstd::prelude::*;
use crate::cmp3::{Cmp, CanonOrd, lemma_cmp_leq_trans};
use crate::model::{Statement, StatementData, statement_cmp, lemma_statement_cmp_lawful,
    stmts_model};

verus! {

broadcast use vstd::seq::group_seq_axioms, vstd::std_specs::vec::group_vec_axioms,
    vstd::seq_lib::group_to_multiset_ensures;

/// A sequence is in canonical statement order: no later statement comes
/// before an earlier one.
pub open spec fn stmts_sorted(s: Seq<StatementData>) -> bool {
    forall|i: int, j: int|
        0 <= i < j < s.len() ==> !(statement_cmp(#[trigger] s[i], #[trigger] s[j]) is Gt)
}

/// Insertion of a statement behind every statement it does not precede:
/// a statement equal under the order keeps the earlier one first.
pub open spec fn spec_insert_stmt(x: StatementData, s: Seq<StatementData>) -> Seq<StatementData>
    decreases s.len(),
{
    if s.len() == 0 {
        seq![x]
    } else if statement_cmp(x, s.last()) is Lt {
        spec_insert_stmt(x, s.drop_last()).push(s.last())
    } else {
        s.push(x)
    }
}

/// The stable sort of the statement list: each statement in turn is
/// placed behind its equals, so the original order of peers is kept.
pub open spec fn spec_sort_stmts(s: Seq<StatementData>) -> Seq<StatementData>
    decreases s.len(),
{
    if s.len() == 0 {
        Seq::empty()
    } else {
        spec_insert_stmt(s.last(), spec_sort_stmts(s.drop_last()))
    }
}

/// Every element of an insertion is the new statement or an old one.
proof fn lemma_insert_stmt_elems(x: StatementData, s: Seq<StatementData>)
    ensures
        spec_insert_stmt(x, s).len() == s.len() + 1,
        forall|k: int|
            0 <= k < spec_insert_stmt(x, s).len() ==> (#[trigger] spec_insert_stmt(x, s)[k] == x
                || exists|j: int| 0 <= j < s.len() && s[j] == spec_insert_stmt(x, s)[k]),
    decreases s.len(),
{
    let ins = spec_insert_stmt(x, s);
    if s.len() == 0 {
    } else if statement_cmp(x, s.last()) is Lt {
        lemma_insert_stmt_elems(x, s.drop_last());
        let rest = spec_insert_stmt(x, s.drop_last());
        assert forall|k: int| 0 <= k < ins.len() implies (#[trigger] ins[k] == x || exists|j: int|
            0 <= j < s.len() && s[j] == ins[k]) by {
            if k < rest.len() {
                assert(ins[k] == rest[k]);
                if rest[k] != x {
                    let j = choose|j: int|
                        0 <= j < s.drop_last().len() && s.drop_last()[j] == rest[k];
                    assert(s[j] == rest[k]);
                }
            } else {
                assert(ins[k] == s.last());
                assert(s[s.len() - 1] == ins[k]);
            }
        }
    } else {
        assert forall|k: int| 0 <= k < ins.len() implies (#[trigger] ins[k] == x || exists|j: int|
            0 <= j < s.len() && s[j] == ins[k]) by {
            if k < s.len() {
                assert(s[k] == ins[k]);
            }
        }
    }
}

/// Insertion keeps the canonical order.
proof fn lemma_insert_stmt_sorted(x: StatementData, s: Seq<StatementData>)
    requires
        stmts_sorted(s),
    ensures
        stmts_sorted(spec_insert_stmt(x, s)),
    decreases s.len(),
{
    let c = |a: StatementData, b: StatementData| statement_cmp(a, b);
    lemma_statement_cmp_lawful();
    let ins = spec_insert_stmt(x, s);
    if s.len() == 0 {
    } else if statement_cmp(x, s.last()) is Lt {
        assert(stmts_sorted(s.drop_last()));
        lemma_insert_stmt_sorted(x, s.drop_last());
        lemma_insert_stmt_elems(x, s.drop_last());
        let rest = spec_insert_stmt(x, s.drop_last());
        assert forall|i: int, j: int| 0 <= i < j < ins.len() implies !(statement_cmp(
            #[trigger] ins[i],
            #[trigger] ins[j],
        ) is Gt) by {
            if j < rest.len() {
                assert(ins[i] == rest[i] && ins[j] == rest[j]);
            } else {
                assert(ins[j] == s.last());
                assert(ins[i] == rest[i]);
                if rest[i] == x {
                    assert(c(x, s.last()) is Lt);
                } else {
                    let m = choose|m: int|
                        0 <= m < s.drop_last().len() && s.drop_last()[m] == rest[i];
                    assert(s[m] == rest[i]);
                    assert(!(c(s[m], s.last()) is Gt));
                }
            }
        }
    } else {
        assert forall|i: int, j: int| 0 <= i < j < ins.len() implies !(statement_cmp(
            #[trigger] ins[i],
            #[trigger] ins[j],
        ) is Gt) by {
            if j < s.len() {
                assert(ins[i] == s[i] && ins[j] == s[j]);
            } else {
                assert(ins[j] == x);
                assert(ins[i] == s[i]);
                assert(c(x, s.last()) is Lt <==> c(s.last(), x) is Gt);
                assert(!(c(s.last(), x) is Gt));
                if i < s.len() - 1 {
                    assert(!(c(s[i], s.last()) is Gt));
                    lemma_cmp_leq_trans(c, s[i], s.last(), x);
                }
            }
        }
    }
}

/// Insertion only adds the new statement to the collection.
proof fn lemma_insert_stmt_multiset(x: StatementData, s: Seq<StatementData>)
    ensures
        spec_insert_stmt(x, s).to_multiset() =~= s.to_multiset().insert(x),
    decreases s.len(),
{
    if s.len() == 0 {
        assert(seq![x] =~= Seq::<StatementData>::empty().push(x));
    } else if statement_cmp(x, s.last()) is Lt {
        lemma_insert_stmt_multiset(x, s.drop_last());
        assert(s.drop_last().push(s.last()) =~= s);
        assert(spec_insert_stmt(x, s).to_multiset() =~= spec_insert_stmt(
            x,
            s.drop_last(),
        ).to_multiset().insert(s.last()));
        assert(s.to_multiset() =~= s.drop_last().to_multiset().insert(s.last()));
    } else {
    }
}

/// The sorted statement list is in canonical order: a law of the
/// canonicalizer.
pub proof fn lemma_sort_stmts_sorted(s: Seq<StatementData>)
    ensures
        stmts_sorted(spec_sort_stmts(s)),
    decreases s.len(),
{
    if s.len() > 0 {
        lemma_sort_stmts_sorted(s.drop_last());
        lemma_insert_stmt_sorted(s.last(), spec_sort_stmts(s.drop_last()));
    }
}

/// Sorting neither loses nor invents a statement: the output holds
/// exactly the input statements, as a multiset.
pub proof fn lemma_sort_stmts_permutation(s: Seq<StatementData>)
    ensures
        spec_sort_stmts(s).to_multiset() =~= s.to_multiset(),
    decreases s.len(),
{
    if s.len() > 0 {
        lemma_sort_stmts_permutation(s.drop_last());
        lemma_insert_stmt_multiset(s.last(), spec_sort_stmts(s.drop_last()));
        assert(s.drop_last().push(s.last()) =~= s);
        assert(s.to_multiset() =~= s.drop_last().to_multiset().insert(s.last()));
    }
}

/// Sorting a sorted list changes nothing: one pass settles the order, so
/// the canonical pass is idempotent on the statement list.
pub proof fn lemma_sort_stmts_idempotent(s: Seq<StatementData>)
    ensures
        stmts_sorted(s) ==> spec_sort_stmts(s) =~= s,
    decreases s.len(),
{
    if s.len() > 0 && stmts_sorted(s) {
        assert(stmts_sorted(s.drop_last()));
        lemma_sort_stmts_idempotent(s.drop_last());
        if s.len() > 1 {
            lemma_insert_last_sorted(s.last(), s.drop_last());
        }
    }
}

/// Inserting a statement that follows everything appends it.
proof fn lemma_insert_last_sorted(x: StatementData, s: Seq<StatementData>)
    requires
        forall|k: int| 0 <= k < s.len() ==> !(statement_cmp(#[trigger] s[k], x) is Gt),
    ensures
        spec_insert_stmt(x, s) =~= s.push(x),
{
    lemma_statement_cmp_lawful();
    let c = |a: StatementData, b: StatementData| statement_cmp(a, b);
    if s.len() > 0 {
        assert(!(statement_cmp(s.last(), x) is Gt));
        assert(c(x, s.last()) is Lt <==> c(s.last(), x) is Gt);
        assert(c(x, s.last()) == statement_cmp(x, s.last()));
        assert(c(s.last(), x) == statement_cmp(s.last(), x));
    }
}

/// Position after the last statement the new one does not precede.
#[verifier::loop_isolation(false)]
fn stmt_insert_pos(x: &Statement, out: &Vec<Statement>) -> (j: usize)
    ensures
        j <= out@.len(),
        forall|k: int|
            j <= k < out@.len() ==> statement_cmp(x.model(), (#[trigger] out@[k]).model()) is Lt,
        j > 0 ==> !(statement_cmp(x.model(), out@[j - 1].model()) is Lt),
{
    let mut j = out.len();
    while j > 0
        invariant
            0 <= j <= out@.len(),
            forall|k: int|
                j <= k < out@.len() ==> statement_cmp(x.model(), (#[trigger] out@[k]).model())
                    is Lt,
        decreases j,
    {
        let c = x.cmp_with(&out[j - 1]);
        if c != Cmp::Lt {
            return j;
        }
        j -= 1;
    }
    j
}

/// Sort a statement list into the canonical order, exactly as
/// `spec_sort_stmts` says: a stable insertion sort.
#[verifier::loop_isolation(false)]
pub fn sort_statements(input: Vec<Statement>) -> (r: Vec<Statement>)
    ensures
        stmts_model(r) == spec_sort_stmts(stmts_model(input)),
        (forall|j: int| 0 <= j < input@.len() ==> (#[trigger] input@[j]).wf()) ==> (forall|i: int|
            0 <= i < r@.len() ==> (#[trigger] r@[i]).wf()),
{
    let ghost allm = stmts_model(input);
    let ghost allwf = forall|j: int| 0 <= j < input@.len() ==> (#[trigger] input@[j]).wf();
    let mut rest = input;
    let mut out: Vec<Statement> = Vec::new();
    let ghost mut done: int = 0;
    proof {
        assert(stmts_model(out) =~= Seq::<StatementData>::empty());
        assert(allm.take(0) =~= Seq::<StatementData>::empty());
    }
    while rest.len() > 0
        invariant
            done == allm.len() - rest@.len(),
            0 <= done <= allm.len(),
            forall|k: int| 0 <= k < rest@.len() ==> rest@[k] == input@[k + done],
            stmts_model(out) == spec_sort_stmts(allm.take(done)),
            allwf ==> (forall|i: int| 0 <= i < out@.len() ==> (#[trigger] out@[i]).wf()),
        decreases rest@.len(),
    {
        let ghost rest0 = rest@;
        let ghost out0 = stmts_model(out);
        let x = rest.remove(0);
        let ghost xm = x.model();
        proof {
            assert(rest@ =~= rest0.drop_first());
            assert(x == input@[done]);
            assert(xm == allm[done]);
        }
        let j = stmt_insert_pos(&x, &out);
        proof {
            assert forall|k: int| j <= k < out0.len() implies statement_cmp(
                xm,
                #[trigger] out0[k],
            ) is Lt by {
                assert(out0[k] == out@[k].model());
            }
            if j > 0 {
                assert(out0[j - 1] == out@[j - 1].model());
            }
            lemma_insert_stmt_at(xm, out0, j as int);
        }
        out.insert(j, x);
        proof {
            assert(stmts_model(out) =~= out0.take(j as int) + seq![xm] + out0.skip(j as int));
            assert(allm.take(done + 1).drop_last() =~= allm.take(done));
            assert(allm.take(done + 1).last() == allm[done]);
            done = done + 1;
        }
    }
    proof {
        assert(allm.take(done) =~= allm);
    }
    out
}

/// Where the insertion lands: after the last statement it does not
/// precede.
proof fn lemma_insert_stmt_at(x: StatementData, s: Seq<StatementData>, j: int)
    requires
        0 <= j <= s.len(),
        forall|k: int| j <= k < s.len() ==> statement_cmp(x, #[trigger] s[k]) is Lt,
        j > 0 ==> !(statement_cmp(x, s[j - 1]) is Lt),
    ensures
        spec_insert_stmt(x, s) =~= s.take(j) + seq![x] + s.skip(j),
    decreases s.len(),
{
    if s.len() == 0 {
    } else if j == s.len() {
        assert(spec_insert_stmt(x, s) == s.push(x));
        assert(s.take(j) =~= s);
        assert(s.skip(j) =~= Seq::<StatementData>::empty());
    } else {
        assert(statement_cmp(x, s.last()) is Lt);
        lemma_insert_stmt_at(x, s.drop_last(), j);
        assert(s.drop_last().take(j) =~= s.take(j));
        assert(s.drop_last().skip(j).push(s.last()) =~= s.skip(j));
        assert(spec_insert_stmt(x, s.drop_last()).push(s.last()) =~= (s.take(j) + seq![x]
            + s.drop_last().skip(j)).push(s.last()));
    }
}

} // verus!
