use vstd::prelude::*;

verus! {

/// Three-way comparison outcome for the canonical orders of this crate.
#[derive(Clone, Copy, Debug, PartialEq, Eq, Structural)]
pub enum Cmp {
    Lt,
    Eq,
    Gt,
}

/// A comparison function is lawful when it is a total preorder:
/// antisymmetric as a relation between `Lt` and `Gt`, and transitive
/// in the ways a lexicographic chain needs.
pub open spec fn lawful_cmp<M>(c: spec_fn(M, M) -> Cmp) -> bool {
    &&& forall|a: M, b: M| #[trigger] c(a, b) is Lt <==> c(b, a) is Gt
    &&& forall|a: M, b: M, d: M|
        #![trigger c(a, b), c(b, d)]
        c(a, b) is Lt && !(c(b, d) is Gt) ==> c(a, d) is Lt
    &&& forall|a: M, b: M, d: M|
        #![trigger c(a, b), c(b, d)]
        !(c(a, b) is Gt) && c(b, d) is Lt ==> c(a, d) is Lt
    &&& forall|a: M, b: M, d: M|
        #![trigger c(a, b), c(b, d)]
        c(a, b) is Eq && c(b, d) is Eq ==> c(a, d) is Eq
}

/// `leq` (that is, not-`Gt`) of a lawful comparison is transitive.
pub proof fn lemma_cmp_leq_trans<M>(c: spec_fn(M, M) -> Cmp, a: M, b: M, d: M)
    requires
        lawful_cmp(c),
        !(c(a, b) is Gt),
        !(c(b, d) is Gt),
    ensures
        !(c(a, d) is Gt),
{
    if c(a, b) is Lt {
        assert(c(a, d) is Lt);
    } else {
        if c(b, d) is Lt {
            assert(c(a, d) is Lt);
        } else {
            assert(c(a, b) is Eq && c(b, d) is Eq);
            assert(c(a, d) is Eq);
        }
    }
}

/// A lawful comparison is reflexive.
pub proof fn lemma_cmp_refl<M>(c: spec_fn(M, M) -> Cmp, a: M)
    requires
        lawful_cmp(c),
    ensures
        c(a, a) is Eq,
{
    assert(c(a, a) is Lt <==> c(a, a) is Gt);
}

/// Lexicographic combination: the second comparison breaks ties of the first.
pub open spec fn cmp_then(first: Cmp, second: Cmp) -> Cmp {
    match first {
        Cmp::Eq => second,
        _ => first,
    }
}

/// Chaining two lawful comparisons lexicographically is lawful.
pub proof fn lemma_chain_lawful<M>(c1: spec_fn(M, M) -> Cmp, c2: spec_fn(M, M) -> Cmp)
    requires
        lawful_cmp(c1),
        lawful_cmp(c2),
    ensures
        lawful_cmp(|a: M, b: M| cmp_then(c1(a, b), c2(a, b))),
{
    let c = |a: M, b: M| cmp_then(c1(a, b), c2(a, b));
    assert forall|a: M, b: M| #[trigger] c(a, b) is Lt <==> c(b, a) is Gt by {
        assert(c1(a, b) is Lt <==> c1(b, a) is Gt);
        assert(c1(b, a) is Lt <==> c1(a, b) is Gt);
        assert(c2(a, b) is Lt <==> c2(b, a) is Gt);
    }
    assert forall|a: M, b: M, d: M|
        #![trigger c(a, b), c(b, d)]
        c(a, b) is Lt && !(c(b, d) is Gt) implies c(a, d) is Lt by {
        lemma_chain_step(c1, c2, a, b, d);
    }
    assert forall|a: M, b: M, d: M|
        #![trigger c(a, b), c(b, d)]
        !(c(a, b) is Gt) && c(b, d) is Lt implies c(a, d) is Lt by {
        lemma_chain_step(c1, c2, a, b, d);
    }
    assert forall|a: M, b: M, d: M|
        #![trigger c(a, b), c(b, d)]
        c(a, b) is Eq && c(b, d) is Eq implies c(a, d) is Eq by {
        assert(c1(a, b) is Eq && c1(b, d) is Eq);
        assert(c1(a, d) is Eq);
        assert(c2(a, b) is Eq && c2(b, d) is Eq);
    }
}

/// Both transitivity shapes of the lexicographic chain at once.
proof fn lemma_chain_step<M>(c1: spec_fn(M, M) -> Cmp, c2: spec_fn(M, M) -> Cmp, a: M, b: M, d: M)
    requires
        lawful_cmp(c1),
        lawful_cmp(c2),
    ensures
        cmp_then(c1(a, b), c2(a, b)) is Lt && !(cmp_then(c1(b, d), c2(b, d)) is Gt)
            ==> cmp_then(c1(a, d), c2(a, d)) is Lt,
        !(cmp_then(c1(a, b), c2(a, b)) is Gt) && cmp_then(c1(b, d), c2(b, d)) is Lt
            ==> cmp_then(c1(a, d), c2(a, d)) is Lt,
{
    if c1(a, b) is Lt && !(c1(b, d) is Gt) {
        assert(c1(a, d) is Lt);
    }
    if !(c1(a, b) is Gt) && c1(b, d) is Lt {
        assert(c1(a, d) is Lt);
    }
    if c1(a, b) is Eq && c1(b, d) is Eq {
        assert(c1(a, d) is Eq);
    }
}

/// Comparing through a projection keeps a lawful comparison lawful.
pub proof fn lemma_proj_cmp_lawful<A, M>(
    c: spec_fn(A, A) -> Cmp,
    base: spec_fn(M, M) -> Cmp,
    f: spec_fn(A) -> M,
)
    requires
        lawful_cmp(base),
        forall|a: A, b: A| #[trigger] c(a, b) == base(f(a), f(b)),
    ensures
        lawful_cmp(c),
{
    assert forall|a: A, b: A| #[trigger] c(a, b) is Lt <==> c(b, a) is Gt by {
        assert(base(f(a), f(b)) is Lt <==> base(f(b), f(a)) is Gt);
    }
    assert forall|a: A, b: A, d: A|
        #![trigger c(a, b), c(b, d)]
        c(a, b) is Lt && !(c(b, d) is Gt) implies c(a, d) is Lt by {
        assert(base(f(a), f(b)) is Lt && !(base(f(b), f(d)) is Gt) ==> base(f(a), f(d)) is Lt);
        assert(c(a, d) == base(f(a), f(d)));
    }
    assert forall|a: A, b: A, d: A|
        #![trigger c(a, b), c(b, d)]
        !(c(a, b) is Gt) && c(b, d) is Lt implies c(a, d) is Lt by {
        assert(!(base(f(a), f(b)) is Gt) && base(f(b), f(d)) is Lt ==> base(f(a), f(d)) is Lt);
        assert(c(a, d) == base(f(a), f(d)));
    }
    assert forall|a: A, b: A, d: A|
        #![trigger c(a, b), c(b, d)]
        c(a, b) is Eq && c(b, d) is Eq implies c(a, d) is Eq by {
        assert(base(f(a), f(b)) is Eq && base(f(b), f(d)) is Eq ==> base(f(a), f(d)) is Eq);
        assert(c(a, d) == base(f(a), f(d)));
    }
}

/// A lawful comparison carries over to any pointwise-equal function.
pub proof fn lemma_lawful_ext<M>(c: spec_fn(M, M) -> Cmp, d: spec_fn(M, M) -> Cmp)
    requires
        lawful_cmp(c),
        forall|a: M, b: M| #[trigger] d(a, b) == c(a, b),
    ensures
        lawful_cmp(d),
{
    assert(d =~= c);
}

/// A type whose values carry a mathematical model with a canonical total order.
pub trait CanonOrd: Sized {
    /// The mathematical model the order is defined over.
    type M;

    /// The model of a value.
    spec fn model(self) -> Self::M;

    /// The canonical comparison over models.
    spec fn mcmp(a: Self::M, b: Self::M) -> Cmp;

    /// The canonical comparison is a lawful total preorder.
    proof fn lemma_mcmp_lawful()
        ensures
            lawful_cmp(|a: Self::M, b: Self::M| Self::mcmp(a, b)),
    ;

    /// Executable comparison, exact with respect to `mcmp` over the models.
    fn cmp_with(&self, other: &Self) -> (c: Cmp)
        ensures
            c == Self::mcmp(self.model(), other.model()),
    ;
}

} // verus!
