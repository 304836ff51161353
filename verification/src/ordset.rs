use vstd::prelude::*;
use crate::cmp3::{Cmp, CanonOrd, lawful_cmp};
use crate::seqcmp::{seq_cmp, lemma_seq_cmp_skip_prefix};

verus! {

/// A sequence is strictly increasing under a comparison.
pub open spec fn strictly_sorted<M>(c: spec_fn(M, M) -> Cmp, s: Seq<M>) -> bool {
    forall|i: int, j: int| 0 <= i < j < s.len() ==> c(#[trigger] s[i], #[trigger] s[j]) is Lt
}

/// Insertion into a sorted sequence without duplicates: a value that
/// compares `Eq` to a present one is dropped, every other lands in order.
pub open spec fn spec_set_insert<M>(c: spec_fn(M, M) -> Cmp, s: Seq<M>, x: M) -> Seq<M>
    decreases s.len(),
{
    if s.len() == 0 {
        seq![x]
    } else {
        match c(x, s[0]) {
            Cmp::Lt => seq![x] + s,
            Cmp::Eq => s,
            Cmp::Gt => seq![s[0]] + spec_set_insert(c, s.drop_first(), x),
        }
    }
}

/// Every element of the insertion result is the new value or an old one.
pub proof fn lemma_set_insert_elems<M>(c: spec_fn(M, M) -> Cmp, s: Seq<M>, x: M)
    ensures
        forall|k: int|
            0 <= k < spec_set_insert(c, s, x).len() ==> (#[trigger] spec_set_insert(c, s, x)[k]
                == x || exists|j: int| 0 <= j < s.len() && s[j] == spec_set_insert(c, s, x)[k]),
        spec_set_insert(c, s, x).len() <= s.len() + 1,
    decreases s.len(),
{
    if s.len() == 0 {
    } else {
        match c(x, s[0]) {
            Cmp::Lt => {
                assert forall|k: int| 0 <= k < spec_set_insert(c, s, x).len() implies (
                #[trigger] spec_set_insert(c, s, x)[k] == x || exists|j: int|
                    0 <= j < s.len() && s[j] == spec_set_insert(c, s, x)[k]) by {
                    if k > 0 {
                        assert(s[k - 1] == spec_set_insert(c, s, x)[k]);
                    }
                }
            },
            Cmp::Eq => {
                assert forall|k: int| 0 <= k < s.len() implies (#[trigger] spec_set_insert(
                    c,
                    s,
                    x,
                )[k] == x || exists|j: int|
                    0 <= j < s.len() && s[j] == spec_set_insert(c, s, x)[k]) by {
                    assert(s[k] == spec_set_insert(c, s, x)[k]);
                }
            },
            Cmp::Gt => {
                lemma_set_insert_elems(c, s.drop_first(), x);
                let rest = spec_set_insert(c, s.drop_first(), x);
                assert forall|k: int| 0 <= k < spec_set_insert(c, s, x).len() implies (
                #[trigger] spec_set_insert(c, s, x)[k] == x || exists|j: int|
                    0 <= j < s.len() && s[j] == spec_set_insert(c, s, x)[k]) by {
                    if k == 0 {
                        assert(s[0] == spec_set_insert(c, s, x)[0]);
                    } else {
                        assert(spec_set_insert(c, s, x)[k] == rest[k - 1]);
                        if rest[k - 1] != x {
                            let j = choose|j: int|
                                0 <= j < s.drop_first().len() && s.drop_first()[j] == rest[k - 1];
                            assert(s[j + 1] == rest[k - 1]);
                        }
                    }
                }
            },
        }
    }
}

/// Insertion keeps a sorted, duplicate-free sequence sorted and
/// duplicate-free.
pub proof fn lemma_set_insert_sorted<M>(c: spec_fn(M, M) -> Cmp, s: Seq<M>, x: M)
    requires
        lawful_cmp(c),
        strictly_sorted(c, s),
    ensures
        strictly_sorted(c, spec_set_insert(c, s, x)),
    decreases s.len(),
{
    if s.len() == 0 {
    } else {
        let ins = spec_set_insert(c, s, x);
        match c(x, s[0]) {
            Cmp::Lt => {
                assert forall|i: int, j: int| 0 <= i < j < ins.len() implies c(
                    #[trigger] ins[i],
                    #[trigger] ins[j],
                ) is Lt by {
                    if i == 0 {
                        assert(ins[j] == s[j - 1]);
                        if j > 1 {
                            assert(c(s[0], s[j - 1]) is Lt);
                        }
                    } else {
                        assert(ins[i] == s[i - 1] && ins[j] == s[j - 1]);
                    }
                }
            },
            Cmp::Eq => {},
            Cmp::Gt => {
                assert forall|i: int, j: int| 0 <= i < j < s.drop_first().len() implies c(
                    #[trigger] s.drop_first()[i],
                    #[trigger] s.drop_first()[j],
                ) is Lt by {
                    assert(s.drop_first()[i] == s[i + 1] && s.drop_first()[j] == s[j + 1]);
                }
                lemma_set_insert_sorted(c, s.drop_first(), x);
                lemma_set_insert_elems(c, s.drop_first(), x);
                let rest = spec_set_insert(c, s.drop_first(), x);
                assert forall|i: int, j: int| 0 <= i < j < ins.len() implies c(
                    #[trigger] ins[i],
                    #[trigger] ins[j],
                ) is Lt by {
                    if i == 0 {
                        assert(ins[j] == rest[j - 1]);
                        if rest[j - 1] == x {
                            assert(c(x, s[0]) is Gt);
                            assert(c(s[0], x) is Lt);
                        } else {
                            let m = choose|m: int|
                                0 <= m < s.drop_first().len() && s.drop_first()[m] == rest[j - 1];
                            assert(s[m + 1] == rest[j - 1]);
                            assert(c(s[0], s[m + 1]) is Lt);
                        }
                    } else {
                        assert(ins[i] == rest[i - 1] && ins[j] == rest[j - 1]);
                    }
                }
            },
        }
    }
}

/// Insertion never shrinks the collection, and always leaves something.
pub proof fn lemma_set_insert_len<M>(c: spec_fn(M, M) -> Cmp, s: Seq<M>, x: M)
    ensures
        spec_set_insert(c, s, x).len() >= s.len(),
        spec_set_insert(c, s, x).len() >= 1,
    decreases s.len(),
{
    if s.len() > 0 && c(x, s[0]) is Gt {
        lemma_set_insert_len(c, s.drop_first(), x);
    }
}

/// Inserting a value greater than everything present appends it.
pub proof fn lemma_set_insert_append<M>(c: spec_fn(M, M) -> Cmp, s: Seq<M>, x: M)
    requires
        lawful_cmp(c),
        forall|k: int| 0 <= k < s.len() ==> c(#[trigger] s[k], x) is Lt,
    ensures
        spec_set_insert(c, s, x) =~= s + seq![x],
    decreases s.len(),
{
    if s.len() > 0 {
        assert(c(s[0], x) is Lt);
        assert(c(x, s[0]) is Gt);
        assert forall|k: int| 0 <= k < s.drop_first().len() implies c(
            #[trigger] s.drop_first()[k],
            x,
        ) is Lt by {
            assert(s.drop_first()[k] == s[k + 1]);
        }
        lemma_set_insert_append(c, s.drop_first(), x);
    }
}

/// Unfolding insertion past a prefix of strictly smaller elements.
proof fn lemma_set_insert_skip<M>(c: spec_fn(M, M) -> Cmp, s: Seq<M>, x: M, i: int)
    requires
        0 <= i <= s.len(),
        forall|k: int| 0 <= k < i ==> c(x, #[trigger] s[k]) is Gt,
    ensures
        spec_set_insert(c, s, x) =~= s.take(i) + spec_set_insert(c, s.skip(i), x),
    decreases i,
{
    if i == 0 {
        assert(s.skip(0) =~= s);
    } else {
        assert(c(x, s[0]) is Gt);
        lemma_set_insert_skip(c, s.drop_first(), x, i - 1);
        assert(s.drop_first().skip(i - 1) =~= s.skip(i));
        assert(seq![s[0]] + (s.drop_first().take(i - 1) + spec_set_insert(c, s.skip(i), x))
            =~= s.take(i) + spec_set_insert(c, s.skip(i), x));
    }
}

/// A set of values held in the canonical order of their type, without
/// duplicates.
#[derive(Debug, PartialEq, Eq)]
pub struct OrdSet<T: CanonOrd> {
    pub items: Vec<T>,
}

impl<T: CanonOrd> OrdSet<T> {
    /// The models of the elements, in order.
    pub open spec fn model(self) -> Seq<T::M> {
        self.items@.map_values(|t: T| t.model())
    }

    /// The elements are strictly increasing in the canonical order.
    pub open spec fn wf(self) -> bool {
        strictly_sorted(|a: T::M, b: T::M| T::mcmp(a, b), self.model())
    }

    /// The empty set.
    pub fn new() -> (s: Self)
        ensures
            s.model() =~= Seq::<T::M>::empty(),
            s.wf(),
    {
        OrdSet { items: Vec::new() }
    }

    pub fn len(&self) -> (n: usize)
        ensures
            n == self.model().len(),
    {
        self.items.len()
    }

    pub fn is_empty(&self) -> (b: bool)
        ensures
            b == (self.model().len() == 0),
    {
        self.items.len() == 0
    }

    /// Insert a value at its place in the order; a value whose model
    /// compares `Eq` to a present one is dropped.
    pub fn insert(&mut self, x: T)
        requires
            old(self).wf(),
        ensures
            final(self).wf(),
            final(self).model() =~= spec_set_insert(
                |a: T::M, b: T::M| T::mcmp(a, b),
                old(self).model(),
                x.model(),
            ),
    {
        let ghost c = |a: T::M, b: T::M| T::mcmp(a, b);
        let ghost s0 = self.model();
        proof {
            T::lemma_mcmp_lawful();
        }
        let n = self.items.len();
        let mut i: usize = 0;
        while i < n
            invariant
                0 <= i <= n,
                n == self.items@.len(),
                self.items@ == old(self).items@,
                forall|k: int| 0 <= k < i ==> c(x.model(), #[trigger] s0[k]) is Gt,
                s0 == old(self).model(),
                c == (|a: T::M, b: T::M| T::mcmp(a, b)),
                lawful_cmp(c),
                strictly_sorted(c, s0),
            decreases n - i,
        {
            let cv = x.cmp_with(&self.items[i]);
            proof {
                assert(self.items@[i as int].model() == s0[i as int]);
            }
            match cv {
                Cmp::Lt => {
                    self.items.insert(i, x);
                    proof {
                        lemma_set_insert_skip(c, s0, x.model(), i as int);
                        assert(s0.skip(i as int).len() > 0);
                        assert(s0.skip(i as int)[0] == s0[i as int]);
                        assert(spec_set_insert(c, s0.skip(i as int), x.model()) =~= seq![x.model()]
                            + s0.skip(i as int));
                        assert(self.model() =~= s0.take(i as int) + (seq![x.model()] + s0.skip(
                            i as int,
                        )));
                        lemma_set_insert_sorted(c, s0, x.model());
                    }
                    return ;
                },
                Cmp::Eq => {
                    proof {
                        lemma_set_insert_skip(c, s0, x.model(), i as int);
                        assert(s0.skip(i as int).len() > 0);
                        assert(s0.skip(i as int)[0] == s0[i as int]);
                        assert(spec_set_insert(c, s0.skip(i as int), x.model()) =~= s0.skip(
                            i as int,
                        ));
                        assert(self.model() =~= s0.take(i as int) + s0.skip(i as int));
                        lemma_set_insert_sorted(c, s0, x.model());
                    }
                    return ;
                },
                Cmp::Gt => {
                    i += 1;
                },
            }
        }
        self.items.push(x);
        proof {
            lemma_set_insert_skip(c, s0, x.model(), n as int);
            assert(s0.skip(n as int).len() == 0);
            assert(s0.take(n as int) =~= s0);
            assert(self.model() =~= s0 + seq![x.model()]);
            lemma_set_insert_sorted(c, s0, x.model());
        }
    }

    /// Three-way comparison of two sets: lexicographic over the ordered
    /// elements, so it realizes the canonical order on sets.
    pub fn cmp_sets(&self, other: &Self) -> (c: Cmp)
        ensures
            c == seq_cmp(|a: T::M, b: T::M| T::mcmp(a, b), self.model(), other.model()),
    {
        let ghost cf = |a: T::M, b: T::M| T::mcmp(a, b);
        let ghost am = self.model();
        let ghost bm = other.model();
        let alen = self.items.len();
        let blen = other.items.len();
        let mut i: usize = 0;
        while i < alen && i < blen
            invariant
                0 <= i <= alen,
                i <= blen,
                alen == am.len(),
                blen == bm.len(),
                am == self.model(),
                bm == other.model(),
                cf == (|a: T::M, b: T::M| T::mcmp(a, b)),
                forall|k: int| 0 <= k < i ==> #[trigger] cf(am[k], bm[k]) is Eq,
            decreases alen - i,
        {
            let cv = self.items[i].cmp_with(&other.items[i]);
            proof {
                assert(self.items@[i as int].model() == am[i as int]);
                assert(other.items@[i as int].model() == bm[i as int]);
            }
            if cv != Cmp::Eq {
                proof {
                    lemma_seq_cmp_skip_prefix(cf, am, bm, i as int);
                    assert(am.skip(i as int)[0] == am[i as int]);
                    assert(bm.skip(i as int)[0] == bm[i as int]);
                }
                return cv;
            }
            i += 1;
        }
        proof {
            lemma_seq_cmp_skip_prefix(cf, am, bm, i as int);
        }
        if alen == blen {
            Cmp::Eq
        } else if alen < blen {
            Cmp::Lt
        } else {
            Cmp::Gt
        }
    }
}

} // verus!
