use vstd::prelude::*;
use crate::cmp3::{Cmp, lawful_cmp, lemma_lawful_ext};

verus! {

/// Comparison of characters by code point.
pub open spec fn char_cmp(a: char, b: char) -> Cmp {
    if (a as u32) < (b as u32) {
        Cmp::Lt
    } else if a == b {
        Cmp::Eq
    } else {
        Cmp::Gt
    }
}

/// Characters with the same code point are the same character.
proof fn lemma_char_code_eq(a: char, b: char)
    requires
        a as u32 == b as u32,
    ensures
        a == b,
{
}

pub proof fn lemma_char_cmp_lawful()
    ensures
        lawful_cmp(|a: char, b: char| char_cmp(a, b)),
{
    let c = |a: char, b: char| char_cmp(a, b);
    assert forall|a: char, b: char| #[trigger] c(a, b) is Lt <==> c(b, a) is Gt by {
        assert(c(a, b) == char_cmp(a, b));
        assert(c(b, a) == char_cmp(b, a));
        if (a as u32) < (b as u32) {
            assert(a != b);
            assert(char_cmp(b, a) is Gt);
        } else if (b as u32) < (a as u32) {
            assert(a != b);
            assert(char_cmp(a, b) is Gt);
        } else {
            lemma_char_code_eq(a, b);
            assert(char_cmp(a, b) is Eq);
            assert(char_cmp(b, a) is Eq);
        }
    }
    assert forall|a: char, b: char, d: char|
        #![trigger c(a, b), c(b, d)]
        c(a, b) is Lt && !(c(b, d) is Gt) implies c(a, d) is Lt by {
        assert(c(a, d) == char_cmp(a, d));
    }
    assert forall|a: char, b: char, d: char|
        #![trigger c(a, b), c(b, d)]
        !(c(a, b) is Gt) && c(b, d) is Lt implies c(a, d) is Lt by {
        assert(c(a, d) == char_cmp(a, d));
    }
    assert forall|a: char, b: char, d: char|
        #![trigger c(a, b), c(b, d)]
        c(a, b) is Eq && c(b, d) is Eq implies c(a, d) is Eq by {
        assert(c(a, d) == char_cmp(a, d));
    }
}

/// Lexicographic comparison of sequences: a strict prefix comes first.
pub open spec fn seq_cmp<M>(c: spec_fn(M, M) -> Cmp, a: Seq<M>, b: Seq<M>) -> Cmp
    decreases a.len(),
{
    if a.len() == 0 && b.len() == 0 {
        Cmp::Eq
    } else if a.len() == 0 {
        Cmp::Lt
    } else if b.len() == 0 {
        Cmp::Gt
    } else {
        match c(a[0], b[0]) {
            Cmp::Eq => seq_cmp(c, a.drop_first(), b.drop_first()),
            o => o,
        }
    }
}

proof fn lemma_seq_cmp_antisym<M>(c: spec_fn(M, M) -> Cmp, a: Seq<M>, b: Seq<M>)
    requires
        lawful_cmp(c),
    ensures
        seq_cmp(c, a, b) is Lt <==> seq_cmp(c, b, a) is Gt,
        seq_cmp(c, a, b) is Eq <==> seq_cmp(c, b, a) is Eq,
    decreases a.len(),
{
    if a.len() == 0 || b.len() == 0 {
    } else {
        assert(c(a[0], b[0]) is Lt <==> c(b[0], a[0]) is Gt);
        assert(c(b[0], a[0]) is Lt <==> c(a[0], b[0]) is Gt);
        lemma_seq_cmp_antisym(c, a.drop_first(), b.drop_first());
    }
}

proof fn lemma_seq_cmp_trans_step<M>(c: spec_fn(M, M) -> Cmp, a: Seq<M>, b: Seq<M>, d: Seq<M>)
    requires
        lawful_cmp(c),
    ensures
        seq_cmp(c, a, b) is Lt && !(seq_cmp(c, b, d) is Gt) ==> seq_cmp(c, a, d) is Lt,
        !(seq_cmp(c, a, b) is Gt) && seq_cmp(c, b, d) is Lt ==> seq_cmp(c, a, d) is Lt,
        seq_cmp(c, a, b) is Eq && seq_cmp(c, b, d) is Eq ==> seq_cmp(c, a, d) is Eq,
    decreases a.len() + b.len() + d.len(),
{
    if a.len() == 0 || b.len() == 0 || d.len() == 0 {
    } else {
        let x = a[0];
        let y = b[0];
        let z = d[0];
        assert(c(x, y) is Lt && !(c(y, z) is Gt) ==> c(x, z) is Lt);
        assert(!(c(x, y) is Gt) && c(y, z) is Lt ==> c(x, z) is Lt);
        assert(c(x, y) is Eq && c(y, z) is Eq ==> c(x, z) is Eq);
        assert(c(x, y) is Lt <==> c(y, x) is Gt);
        assert(c(y, z) is Lt <==> c(z, y) is Gt);
        assert(c(x, z) is Lt <==> c(z, x) is Gt);
        lemma_seq_cmp_trans_step(c, a.drop_first(), b.drop_first(), d.drop_first());
    }
}

/// Lexicographic lifting of a lawful comparison to sequences is lawful.
pub proof fn lemma_seq_cmp_lawful<M>(c: spec_fn(M, M) -> Cmp)
    requires
        lawful_cmp(c),
    ensures
        lawful_cmp(|a: Seq<M>, b: Seq<M>| seq_cmp(c, a, b)),
{
    let sc = |a: Seq<M>, b: Seq<M>| seq_cmp(c, a, b);
    assert forall|a: Seq<M>, b: Seq<M>| #[trigger] sc(a, b) is Lt <==> sc(b, a) is Gt by {
        lemma_seq_cmp_antisym(c, a, b);
    }
    assert forall|a: Seq<M>, b: Seq<M>, d: Seq<M>|
        #![trigger sc(a, b), sc(b, d)]
        sc(a, b) is Lt && !(sc(b, d) is Gt) implies sc(a, d) is Lt by {
        lemma_seq_cmp_trans_step(c, a, b, d);
    }
    assert forall|a: Seq<M>, b: Seq<M>, d: Seq<M>|
        #![trigger sc(a, b), sc(b, d)]
        !(sc(a, b) is Gt) && sc(b, d) is Lt implies sc(a, d) is Lt by {
        lemma_seq_cmp_trans_step(c, a, b, d);
    }
    assert forall|a: Seq<M>, b: Seq<M>, d: Seq<M>|
        #![trigger sc(a, b), sc(b, d)]
        sc(a, b) is Eq && sc(b, d) is Eq implies sc(a, d) is Eq by {
        lemma_seq_cmp_trans_step(c, a, b, d);
    }
}

/// Two sequences that compare `Eq` under a comparison whose `Eq` means
/// equality are equal.
pub proof fn lemma_seq_cmp_eq_is_eq<M>(c: spec_fn(M, M) -> Cmp, a: Seq<M>, b: Seq<M>)
    requires
        forall|x: M, y: M| #[trigger] c(x, y) is Eq ==> x == y,
        seq_cmp(c, a, b) is Eq,
    ensures
        a =~= b,
    decreases a.len(),
{
    if a.len() == 0 || b.len() == 0 {
    } else {
        lemma_seq_cmp_eq_is_eq(c, a.drop_first(), b.drop_first());
        assert(a =~= seq![a[0]] + a.drop_first());
        assert(b =~= seq![b[0]] + b.drop_first());
    }
}

/// Unfolding `seq_cmp` past a common prefix: if the first `i` elements
/// compare `Eq` pairwise, the comparison is decided by the suffixes.
pub proof fn lemma_seq_cmp_skip_prefix<M>(c: spec_fn(M, M) -> Cmp, a: Seq<M>, b: Seq<M>, i: int)
    requires
        0 <= i <= a.len(),
        i <= b.len(),
        forall|k: int| 0 <= k < i ==> #[trigger] c(a[k], b[k]) is Eq,
    ensures
        seq_cmp(c, a, b) == seq_cmp(c, a.skip(i), b.skip(i)),
    decreases i,
{
    if i > 0 {
        assert(a.len() > 0 && b.len() > 0);
        assert(c(a[0], b[0]) is Eq);
        lemma_seq_cmp_skip_prefix(c, a.drop_first(), b.drop_first(), i - 1);
        assert(a.drop_first().skip(i - 1) =~= a.skip(i));
        assert(b.drop_first().skip(i - 1) =~= b.skip(i));
    } else {
        assert(a.skip(0) =~= a);
        assert(b.skip(0) =~= b);
    }
}

/// Comparison of strings: lexicographic over the characters.
pub open spec fn text_cmp(a: Seq<char>, b: Seq<char>) -> Cmp {
    seq_cmp(|x: char, y: char| char_cmp(x, y), a, b)
}

pub proof fn lemma_text_cmp_lawful()
    ensures
        lawful_cmp(|a: Seq<char>, b: Seq<char>| text_cmp(a, b)),
{
    let cc = |x: char, y: char| char_cmp(x, y);
    lemma_char_cmp_lawful();
    lemma_seq_cmp_lawful(cc);
    lemma_lawful_ext(
        |a: Seq<char>, b: Seq<char>| seq_cmp(cc, a, b),
        |a: Seq<char>, b: Seq<char>| text_cmp(a, b),
    );
}

/// Strings that compare `Eq` are equal character sequences.
pub proof fn lemma_text_cmp_eq_is_eq(a: Seq<char>, b: Seq<char>)
    requires
        text_cmp(a, b) is Eq,
    ensures
        a =~= b,
{
    lemma_seq_cmp_eq_is_eq(|x: char, y: char| char_cmp(x, y), a, b);
}

/// Comparison of optional values: absent values come first.
pub open spec fn opt_cmp<M>(c: spec_fn(M, M) -> Cmp, a: Option<M>, b: Option<M>) -> Cmp {
    match (a, b) {
        (Option::None, Option::None) => Cmp::Eq,
        (Option::None, Option::Some(_)) => Cmp::Lt,
        (Option::Some(_), Option::None) => Cmp::Gt,
        (Option::Some(x), Option::Some(y)) => c(x, y),
    }
}

pub proof fn lemma_opt_cmp_lawful<M>(c: spec_fn(M, M) -> Cmp)
    requires
        lawful_cmp(c),
    ensures
        lawful_cmp(|a: Option<M>, b: Option<M>| opt_cmp(c, a, b)),
{
}

} // verus!
