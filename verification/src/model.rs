use vstd::prelude::*;
use vstd::string::StringExecFns;
use crate::cmp3::{Cmp, CanonOrd, cmp_then, lawful_cmp, lemma_chain_lawful, lemma_lawful_ext,
    lemma_proj_cmp_lawful};
use crate::seqcmp::{text_cmp, seq_cmp, opt_cmp, lemma_text_cmp_lawful, lemma_seq_cmp_lawful,
    lemma_opt_cmp_lawful};
use crate::strutil::text_eq;
use crate::arn::{Arn, ArnData, arn_cmp, lemma_arn_cmp_lawful};
use crate::idents::{Effect, effect_cmp, lemma_effect_cmp_lawful, Action, ActionData, action_cmp,
    lemma_action_cmp_lawful, Resource, ResourceData, resource_cmp, lemma_resource_cmp_lawful};
use crate::ordset::OrdSet;

verus! {

broadcast use vstd::seq::group_seq_axioms, vstd::std_specs::vec::group_vec_axioms;

/// Mathematical model of a principal: four ordered sets of identifiers.
pub struct PrincipalData {
    pub aws: Seq<ArnData>,
    pub canonical_user: Seq<Seq<char>>,
    pub federated: Seq<Seq<char>>,
    pub service: Seq<Seq<char>>,
}

/// The principal of a statement: who the rule speaks about.
#[derive(Debug, PartialEq, Eq)]
pub struct Principal {
    pub aws: OrdSet<Arn>,
    pub canonical_user: OrdSet<String>,
    pub federated: OrdSet<String>,
    pub service: OrdSet<String>,
}

impl Principal {
    /// The model of this value.
    pub open spec fn model(self) -> PrincipalData {
        PrincipalData {
            aws: self.aws.model(),
            canonical_user: self.canonical_user.model(),
            federated: self.federated.model(),
            service: self.service.model(),
        }
    }

    /// All four sets are in canonical order.
    pub open spec fn wf(self) -> bool {
        self.aws.wf() && self.canonical_user.wf() && self.federated.wf() && self.service.wf()
    }

    /// The principal with all four sets empty.
    pub fn new() -> (p: Principal)
        ensures
            p.wf(),
            p.model().aws =~= Seq::<ArnData>::empty(),
            p.model().canonical_user =~= Seq::<Seq<char>>::empty(),
            p.model().federated =~= Seq::<Seq<char>>::empty(),
            p.model().service =~= Seq::<Seq<char>>::empty(),
    {
        Principal {
            aws: OrdSet::new(),
            canonical_user: OrdSet::new(),
            federated: OrdSet::new(),
            service: OrdSet::new(),
        }
    }
}

/// Canonical comparison of principals: lexicographic over the four sets in
/// field order, each set compared lexicographically.
pub open spec fn principal_cmp(a: PrincipalData, b: PrincipalData) -> Cmp {
    cmp_then(
        seq_cmp(|x: ArnData, y: ArnData| arn_cmp(x, y), a.aws, b.aws),
        cmp_then(
            seq_cmp(|x: Seq<char>, y: Seq<char>| text_cmp(x, y), a.canonical_user, b.canonical_user),
            cmp_then(
                seq_cmp(|x: Seq<char>, y: Seq<char>| text_cmp(x, y), a.federated, b.federated),
                seq_cmp(|x: Seq<char>, y: Seq<char>| text_cmp(x, y), a.service, b.service),
            ),
        ),
    )
}

pub proof fn lemma_principal_cmp_lawful()
    ensures
        lawful_cmp(|a: PrincipalData, b: PrincipalData| principal_cmp(a, b)),
{
    let ac = |x: ArnData, y: ArnData| arn_cmp(x, y);
    let tc = |x: Seq<char>, y: Seq<char>| text_cmp(x, y);
    lemma_arn_cmp_lawful();
    lemma_text_cmp_lawful();
    lemma_seq_cmp_lawful(ac);
    lemma_seq_cmp_lawful(tc);
    let sa = |x: Seq<ArnData>, y: Seq<ArnData>| seq_cmp(ac, x, y);
    let st = |x: Seq<Seq<char>>, y: Seq<Seq<char>>| seq_cmp(tc, x, y);
    let c1 = |a: PrincipalData, b: PrincipalData| sa(a.aws, b.aws);
    let c2 = |a: PrincipalData, b: PrincipalData| st(a.canonical_user, b.canonical_user);
    let c3 = |a: PrincipalData, b: PrincipalData| st(a.federated, b.federated);
    let c4 = |a: PrincipalData, b: PrincipalData| st(a.service, b.service);
    lemma_proj_cmp_lawful(c1, sa, |a: PrincipalData| a.aws);
    lemma_proj_cmp_lawful(c2, st, |a: PrincipalData| a.canonical_user);
    lemma_proj_cmp_lawful(c3, st, |a: PrincipalData| a.federated);
    lemma_proj_cmp_lawful(c4, st, |a: PrincipalData| a.service);
    lemma_chain_lawful(c3, c4);
    let c34 = |a: PrincipalData, b: PrincipalData| cmp_then(c3(a, b), c4(a, b));
    lemma_chain_lawful(c2, c34);
    let c234 = |a: PrincipalData, b: PrincipalData| cmp_then(c2(a, b), c34(a, b));
    lemma_chain_lawful(c1, c234);
    lemma_lawful_ext(
        |a: PrincipalData, b: PrincipalData| cmp_then(c1(a, b), c234(a, b)),
        |a: PrincipalData, b: PrincipalData| principal_cmp(a, b),
    );
}

impl CanonOrd for Principal {
    type M = PrincipalData;

    open spec fn model(self) -> PrincipalData {
        self.model()
    }

    open spec fn mcmp(a: PrincipalData, b: PrincipalData) -> Cmp {
        principal_cmp(a, b)
    }

    proof fn lemma_mcmp_lawful() {
        lemma_principal_cmp_lawful();
        lemma_lawful_ext(
            |a: PrincipalData, b: PrincipalData| principal_cmp(a, b),
            |a: PrincipalData, b: PrincipalData| <Principal as CanonOrd>::mcmp(a, b),
        );
    }

    fn cmp_with(&self, other: &Self) -> (c: Cmp) {
        proof {
            assert((|a: ArnData, b: ArnData| <Arn as CanonOrd>::mcmp(a, b)) =~= (
            |x: ArnData, y: ArnData| arn_cmp(x, y)));
            assert((|a: Seq<char>, b: Seq<char>| <String as CanonOrd>::mcmp(a, b)) =~= (
            |x: Seq<char>, y: Seq<char>| text_cmp(x, y)));
        }
        let c = self.aws.cmp_sets(&other.aws);
        if c != Cmp::Eq {
            return c;
        }
        let c = self.canonical_user.cmp_sets(&other.canonical_user);
        if c != Cmp::Eq {
            return c;
        }
        let c = self.federated.cmp_sets(&other.federated);
        if c != Cmp::Eq {
            return c;
        }
        self.service.cmp_sets(&other.service)
    }
}

/// Mathematical model of a condition table: operators to keys to value
/// lists, in original insertion order.
pub type CondData = Seq<(Seq<char>, Seq<(Seq<char>, Seq<Seq<char>>)>)>;

/// One operator block of a condition: keys to their value lists.
#[derive(Debug, PartialEq, Eq)]
pub struct CondBlock {
    pub entries: Vec<(String, Vec<String>)>,
}

/// The character sequences of a vector of strings.
pub open spec fn texts_model(v: Vec<String>) -> Seq<Seq<char>> {
    v@.map_values(|s: String| s@)
}

impl CondBlock {
    pub open spec fn model(self) -> Seq<(Seq<char>, Seq<Seq<char>>)> {
        self.entries@.map_values(|kv: (String, Vec<String>)| (kv.0@, texts_model(kv.1)))
    }

    /// Keys are pairwise distinct.
    pub open spec fn wf(self) -> bool {
        forall|i: int, j: int|
            0 <= i < j < self.model().len() ==> (#[trigger] self.model()[i]).0 != (
            #[trigger] self.model()[j]).0
    }

    pub fn new() -> (b: CondBlock)
        ensures
            b.wf(),
            b.model() =~= Seq::<(Seq<char>, Seq<Seq<char>>)>::empty(),
    {
        CondBlock { entries: Vec::new() }
    }

    /// Position of `key` among the entries, if present.
    fn find_key(&self, key: &str) -> (r: Option<usize>)
        ensures
            match r {
                Option::Some(i) => i < self.model().len() && self.model()[i as int].0 == key@
                    && forall|k: int| 0 <= k < i ==> (#[trigger] self.model()[k]).0 != key@,
                Option::None => forall|k: int|
                    0 <= k < self.model().len() ==> (#[trigger] self.model()[k]).0 != key@,
            },
    {
        let n = self.entries.len();
        let mut i: usize = 0;
        while i < n
            invariant
                0 <= i <= n,
                n == self.entries@.len(),
                forall|k: int| 0 <= k < i ==> (#[trigger] self.model()[k]).0 != key@,
            decreases n - i,
        {
            let hit = text_eq(self.entries[i].0.as_str(), key);
            proof {
                assert(self.model()[i as int].0 == self.entries@[i as int].0@);
            }
            if hit {
                return Option::Some(i);
            }
            i += 1;
        }
        Option::None
    }

    /// Bind `key` to `vals`: replace the value in place when the key is
    /// already present, else append the pair.
    pub fn upsert(&mut self, key: String, vals: Vec<String>)
        requires
            old(self).wf(),
        ensures
            final(self).wf(),
            final(self).model() =~= spec_upsert(old(self).model(), key@, texts_model(vals)),
    {
        let ghost s0 = self.model();
        let ghost keym = key@;
        let ghost xm = texts_model(vals);
        match self.find_key(key.as_str()) {
            Option::Some(i) => {
                self.entries.set(i, (key, vals));
                proof {
                    lemma_upsert_skip(s0, keym, xm, i as int);
                    assert(s0.skip(i as int)[0] == s0[i as int]);
                    assert(spec_upsert(s0.skip(i as int), keym, xm) =~= seq![(keym, xm)]
                        + s0.skip(i as int).drop_first());
                    let rhs = s0.take(i as int) + (seq![(keym, xm)] + s0.skip(
                        i as int,
                    ).drop_first());
                    assert forall|k: int| 0 <= k < rhs.len() implies self.model()[k] == rhs[k] by {
                        if k < i {
                            assert(self.entries@[k] == old(self).entries@[k]);
                            assert(rhs[k] == s0[k]);
                        } else if k == i {
                            assert(self.entries@[k].0@ == keym);
                            assert(texts_model(self.entries@[k].1) == xm);
                            assert(rhs[k] == (keym, xm));
                        } else {
                            assert(self.entries@[k] == old(self).entries@[k]);
                            assert(rhs[k] == s0.skip(i as int).drop_first()[k - i - 1]);
                            assert(s0.skip(i as int).drop_first()[k - i - 1] == s0[k]);
                        }
                    }
                    assert(self.model() =~= rhs);
                    lemma_upsert_wf(s0, keym, xm);
                }
            },
            Option::None => {
                self.entries.push((key, vals));
                proof {
                    lemma_upsert_skip(s0, keym, xm, s0.len() as int);
                    assert(s0.take(s0.len() as int) =~= s0);
                    assert(spec_upsert(s0.skip(s0.len() as int), keym, xm) =~= seq![(keym, xm)]);
                    assert(self.model() =~= s0 + seq![(keym, xm)]);
                    lemma_upsert_wf(s0, keym, xm);
                }
            },
        }
    }
}

/// Bind a key in an ordered association list: replace in place, or append.
pub open spec fn spec_upsert<V>(s: Seq<(Seq<char>, V)>, k: Seq<char>, x: V) -> Seq<(Seq<char>, V)>
    decreases s.len(),
{
    if s.len() == 0 {
        seq![(k, x)]
    } else if s[0].0 == k {
        seq![(k, x)] + s.drop_first()
    } else {
        seq![s[0]] + spec_upsert(s.drop_first(), k, x)
    }
}

/// Unfolding `spec_upsert` past a prefix of other keys.
pub proof fn lemma_upsert_skip<V>(s: Seq<(Seq<char>, V)>, k: Seq<char>, x: V, i: int)
    requires
        0 <= i <= s.len(),
        forall|m: int| 0 <= m < i ==> (#[trigger] s[m]).0 != k,
    ensures
        spec_upsert(s, k, x) =~= s.take(i) + spec_upsert(s.skip(i), k, x),
    decreases i,
{
    if i == 0 {
        assert(s.skip(0) =~= s);
    } else {
        lemma_upsert_skip(s.drop_first(), k, x, i - 1);
        assert(s.drop_first().skip(i - 1) =~= s.skip(i));
        assert(seq![s[0]] + (s.drop_first().take(i - 1) + spec_upsert(s.skip(i), k, x)) =~= s.take(
            i,
        ) + spec_upsert(s.skip(i), k, x));
    }
}

/// `spec_upsert` keeps keys pairwise distinct, and binds exactly `k`.
pub proof fn lemma_upsert_wf<V>(s: Seq<(Seq<char>, V)>, k: Seq<char>, x: V)
    requires
        forall|i: int, j: int| 0 <= i < j < s.len() ==> (#[trigger] s[i]).0 != (#[trigger] s[j]).0,
    ensures
        forall|i: int, j: int|
            0 <= i < j < spec_upsert(s, k, x).len() ==> (#[trigger] spec_upsert(s, k, x)[i]).0 != (
            #[trigger] spec_upsert(s, k, x)[j]).0,
    decreases s.len(),
{
    let u = spec_upsert(s, k, x);
    if s.len() == 0 {
    } else if s[0].0 == k {
        assert forall|i: int, j: int| 0 <= i < j < u.len() implies (#[trigger] u[i]).0 != (
        #[trigger] u[j]).0 by {
            if i == 0 {
                assert(u[j] == s[j]);
                assert(s[0].0 != s[j].0);
            } else {
                assert(u[i] == s[i] && u[j] == s[j]);
            }
        }
    } else {
        assert forall|i: int, j: int| 0 <= i < j < s.drop_first().len() implies (
        #[trigger] s.drop_first()[i]).0 != (#[trigger] s.drop_first()[j]).0 by {
            assert(s.drop_first()[i] == s[i + 1] && s.drop_first()[j] == s[j + 1]);
        }
        lemma_upsert_wf(s.drop_first(), k, x);
        let rest = spec_upsert(s.drop_first(), k, x);
        lemma_upsert_keys(s.drop_first(), k, x);
        assert forall|i: int, j: int| 0 <= i < j < u.len() implies (#[trigger] u[i]).0 != (
        #[trigger] u[j]).0 by {
            if i == 0 {
                assert(u[j] == rest[j - 1]);
                if rest[j - 1].0 == k {
                } else {
                    let m = choose|m: int|
                        0 <= m < s.drop_first().len() && s.drop_first()[m].0 == rest[j - 1].0;
                    assert(s[m + 1].0 == rest[j - 1].0);
                    assert(s[0].0 != s[m + 1].0);
                }
            } else {
                assert(u[i] == rest[i - 1] && u[j] == rest[j - 1]);
            }
        }
    }
}

/// Every key after an upsert is `k` or one already present.
pub proof fn lemma_upsert_keys<V>(s: Seq<(Seq<char>, V)>, k: Seq<char>, x: V)
    ensures
        forall|i: int|
            0 <= i < spec_upsert(s, k, x).len() ==> ((#[trigger] spec_upsert(s, k, x)[i]).0 == k
                || exists|m: int| 0 <= m < s.len() && s[m].0 == spec_upsert(s, k, x)[i].0),
    decreases s.len(),
{
    let u = spec_upsert(s, k, x);
    if s.len() == 0 {
    } else if s[0].0 == k {
        assert forall|i: int| 0 <= i < u.len() implies ((#[trigger] u[i]).0 == k || exists|m: int|
            0 <= m < s.len() && s[m].0 == u[i].0) by {
            if i > 0 {
                assert(s[i].0 == u[i].0);
            }
        }
    } else {
        lemma_upsert_keys(s.drop_first(), k, x);
        let rest = spec_upsert(s.drop_first(), k, x);
        assert forall|i: int| 0 <= i < u.len() implies ((#[trigger] u[i]).0 == k || exists|m: int|
            0 <= m < s.len() && s[m].0 == u[i].0) by {
            if i == 0 {
                assert(s[0].0 == u[0].0);
            } else {
                assert(u[i] == rest[i - 1]);
                if rest[i - 1].0 != k {
                    let m = choose|m: int|
                        0 <= m < s.drop_first().len() && s.drop_first()[m].0 == rest[i - 1].0;
                    assert(s[m + 1].0 == rest[i - 1].0);
                }
            }
        }
    }
}

/// A condition table: operator names to blocks, in original order.
#[derive(Debug, PartialEq, Eq)]
pub struct Condition {
    pub entries: Vec<(String, CondBlock)>,
}

impl Condition {
    pub open spec fn model(self) -> CondData {
        self.entries@.map_values(|kv: (String, CondBlock)| (kv.0@, kv.1.model()))
    }

    /// Operator names are pairwise distinct and every block is well formed.
    pub open spec fn wf(self) -> bool {
        &&& forall|i: int, j: int|
            0 <= i < j < self.model().len() ==> (#[trigger] self.model()[i]).0 != (
            #[trigger] self.model()[j]).0
        &&& forall|i: int|
            0 <= i < self.entries@.len() ==> (#[trigger] self.entries@[i].1).wf()
    }

    pub fn new() -> (c: Condition)
        ensures
            c.wf(),
            c.model() =~= Seq::<(Seq<char>, Seq<(Seq<char>, Seq<Seq<char>>)>)>::empty(),
    {
        Condition { entries: Vec::new() }
    }

    pub fn is_empty(&self) -> (b: bool)
        ensures
            b == (self.model().len() == 0),
    {
        self.entries.len() == 0
    }

    /// Position of `key` among the entries, if present.
    fn find_key(&self, key: &str) -> (r: Option<usize>)
        ensures
            match r {
                Option::Some(i) => i < self.model().len() && self.model()[i as int].0 == key@
                    && forall|k: int| 0 <= k < i ==> (#[trigger] self.model()[k]).0 != key@,
                Option::None => forall|k: int|
                    0 <= k < self.model().len() ==> (#[trigger] self.model()[k]).0 != key@,
            },
    {
        let n = self.entries.len();
        let mut i: usize = 0;
        while i < n
            invariant
                0 <= i <= n,
                n == self.entries@.len(),
                forall|k: int| 0 <= k < i ==> (#[trigger] self.model()[k]).0 != key@,
            decreases n - i,
        {
            let hit = text_eq(self.entries[i].0.as_str(), key);
            proof {
                assert(self.model()[i as int].0 == self.entries@[i as int].0@);
            }
            if hit {
                return Option::Some(i);
            }
            i += 1;
        }
        Option::None
    }

    /// Bind an operator name to a block: replace in place when present,
    /// else append.
    pub fn upsert(&mut self, key: String, block: CondBlock)
        requires
            old(self).wf(),
            block.wf(),
        ensures
            final(self).wf(),
            final(self).model() =~= spec_upsert(old(self).model(), key@, block.model()),
    {
        let ghost s0 = self.model();
        let ghost keym = key@;
        let ghost xm = block.model();
        match self.find_key(key.as_str()) {
            Option::Some(i) => {
                self.entries.set(i, (key, block));
                proof {
                    lemma_upsert_skip(s0, keym, xm, i as int);
                    assert(s0.skip(i as int)[0] == s0[i as int]);
                    assert(spec_upsert(s0.skip(i as int), keym, xm) =~= seq![(keym, xm)]
                        + s0.skip(i as int).drop_first());
                    let rhs = s0.take(i as int) + (seq![(keym, xm)] + s0.skip(
                        i as int,
                    ).drop_first());
                    assert forall|k: int| 0 <= k < rhs.len() implies self.model()[k] == rhs[k] by {
                        if k < i {
                            assert(self.entries@[k] == old(self).entries@[k]);
                            assert(rhs[k] == s0[k]);
                        } else if k == i {
                            assert(self.entries@[k].0@ == keym);
                            assert(self.entries@[k].1.model() == xm);
                            assert(rhs[k] == (keym, xm));
                        } else {
                            assert(self.entries@[k] == old(self).entries@[k]);
                            assert(rhs[k] == s0.skip(i as int).drop_first()[k - i - 1]);
                            assert(s0.skip(i as int).drop_first()[k - i - 1] == s0[k]);
                        }
                    }
                    assert(self.model() =~= rhs);
                    lemma_upsert_wf(s0, keym, xm);
                    assert forall|q: int| 0 <= q < self.entries@.len() implies (
                    #[trigger] self.entries@[q].1).wf() by {
                        if q != i {
                            assert(self.entries@[q] == old(self).entries@[q]);
                        }
                    }
                }
            },
            Option::None => {
                self.entries.push((key, block));
                proof {
                    lemma_upsert_skip(s0, keym, xm, s0.len() as int);
                    assert(s0.take(s0.len() as int) =~= s0);
                    assert(spec_upsert(s0.skip(s0.len() as int), keym, xm) =~= seq![(keym, xm)]);
                    assert(self.model() =~= s0 + seq![(keym, xm)]);
                    lemma_upsert_wf(s0, keym, xm);
                    assert forall|q: int| 0 <= q < self.entries@.len() implies (
                    #[trigger] self.entries@[q].1).wf() by {
                        if q < self.entries@.len() - 1 {
                            assert(self.entries@[q] == old(self).entries@[q]);
                        }
                    }
                }
            },
        }
    }
}

/// Mathematical model of a statement.
pub struct StatementData {
    pub sid: Option<Seq<char>>,
    pub effect: Effect,
    pub principal: Option<PrincipalData>,
    pub not_principal: Option<PrincipalData>,
    pub action: Seq<ActionData>,
    pub not_action: Seq<ActionData>,
    pub resource: Seq<ResourceData>,
    pub not_resource: Seq<ResourceData>,
    pub condition: CondData,
}

/// One access rule of a policy.
#[derive(Debug, PartialEq, Eq)]
pub struct Statement {
    pub sid: Option<String>,
    pub effect: Effect,
    pub principal: Option<Principal>,
    pub not_principal: Option<Principal>,
    pub action: OrdSet<Action>,
    pub not_action: OrdSet<Action>,
    pub resource: OrdSet<Resource>,
    pub not_resource: OrdSet<Resource>,
    pub condition: Condition,
}

impl Statement {
    pub open spec fn model(self) -> StatementData {
        StatementData {
            sid: match self.sid {
                Option::Some(s) => Option::Some(s@),
                Option::None => Option::None,
            },
            effect: self.effect,
            principal: match self.principal {
                Option::Some(p) => Option::Some(p.model()),
                Option::None => Option::None,
            },
            not_principal: match self.not_principal {
                Option::Some(p) => Option::Some(p.model()),
                Option::None => Option::None,
            },
            action: self.action.model(),
            not_action: self.not_action.model(),
            resource: self.resource.model(),
            not_resource: self.not_resource.model(),
            condition: self.condition.model(),
        }
    }

    pub open spec fn wf(self) -> bool {
        &&& match self.principal {
            Option::Some(p) => p.wf(),
            Option::None => true,
        }
        &&& match self.not_principal {
            Option::Some(p) => p.wf(),
            Option::None => true,
        }
        &&& self.action.wf()
        &&& self.not_action.wf()
        &&& self.resource.wf()
        &&& self.not_resource.wf()
        &&& self.condition.wf()
    }
}

/// Canonical comparison of statements: lexicographic over sid, effect,
/// principal, not-principal, action, not-action, resource, not-resource.
/// The condition table deliberately does not take part.
#[verifier::opaque]
pub open spec fn statement_cmp(a: StatementData, b: StatementData) -> Cmp {
    cmp_then(
        opt_cmp(|x: Seq<char>, y: Seq<char>| text_cmp(x, y), a.sid, b.sid),
        cmp_then(
            effect_cmp(a.effect, b.effect),
            cmp_then(
                opt_cmp(|x: PrincipalData, y: PrincipalData| principal_cmp(x, y), a.principal, b.principal),
                cmp_then(
                    opt_cmp(
                        |x: PrincipalData, y: PrincipalData| principal_cmp(x, y),
                        a.not_principal,
                        b.not_principal,
                    ),
                    cmp_then(
                        seq_cmp(|x: ActionData, y: ActionData| action_cmp(x, y), a.action, b.action),
                        cmp_then(
                            seq_cmp(
                                |x: ActionData, y: ActionData| action_cmp(x, y),
                                a.not_action,
                                b.not_action,
                            ),
                            cmp_then(
                                seq_cmp(
                                    |x: ResourceData, y: ResourceData| resource_cmp(x, y),
                                    a.resource,
                                    b.resource,
                                ),
                                seq_cmp(
                                    |x: ResourceData, y: ResourceData| resource_cmp(x, y),
                                    a.not_resource,
                                    b.not_resource,
                                ),
                            ),
                        ),
                    ),
                ),
            ),
        ),
    )
}

pub proof fn lemma_statement_cmp_lawful()
    ensures
        lawful_cmp(|a: StatementData, b: StatementData| statement_cmp(a, b)),
{
    reveal(statement_cmp);
    let tc = |x: Seq<char>, y: Seq<char>| text_cmp(x, y);
    let pc = |x: PrincipalData, y: PrincipalData| principal_cmp(x, y);
    let acm = |x: ActionData, y: ActionData| action_cmp(x, y);
    let rcm = |x: ResourceData, y: ResourceData| resource_cmp(x, y);
    lemma_text_cmp_lawful();
    lemma_principal_cmp_lawful();
    lemma_action_cmp_lawful();
    lemma_resource_cmp_lawful();
    lemma_effect_cmp_lawful();
    lemma_opt_cmp_lawful(tc);
    lemma_opt_cmp_lawful(pc);
    lemma_seq_cmp_lawful(acm);
    lemma_seq_cmp_lawful(rcm);
    let ot = |x: Option<Seq<char>>, y: Option<Seq<char>>| opt_cmp(tc, x, y);
    let op = |x: Option<PrincipalData>, y: Option<PrincipalData>| opt_cmp(pc, x, y);
    let sa = |x: Seq<ActionData>, y: Seq<ActionData>| seq_cmp(acm, x, y);
    let sr = |x: Seq<ResourceData>, y: Seq<ResourceData>| seq_cmp(rcm, x, y);
    let ec = |x: Effect, y: Effect| effect_cmp(x, y);
    let c1 = |a: StatementData, b: StatementData| ot(a.sid, b.sid);
    let c2 = |a: StatementData, b: StatementData| ec(a.effect, b.effect);
    let c3 = |a: StatementData, b: StatementData| op(a.principal, b.principal);
    let c4 = |a: StatementData, b: StatementData| op(a.not_principal, b.not_principal);
    let c5 = |a: StatementData, b: StatementData| sa(a.action, b.action);
    let c6 = |a: StatementData, b: StatementData| sa(a.not_action, b.not_action);
    let c7 = |a: StatementData, b: StatementData| sr(a.resource, b.resource);
    let c8 = |a: StatementData, b: StatementData| sr(a.not_resource, b.not_resource);
    lemma_proj_cmp_lawful(c1, ot, |a: StatementData| a.sid);
    lemma_proj_cmp_lawful(c2, ec, |a: StatementData| a.effect);
    lemma_proj_cmp_lawful(c3, op, |a: StatementData| a.principal);
    lemma_proj_cmp_lawful(c4, op, |a: StatementData| a.not_principal);
    lemma_proj_cmp_lawful(c5, sa, |a: StatementData| a.action);
    lemma_proj_cmp_lawful(c6, sa, |a: StatementData| a.not_action);
    lemma_proj_cmp_lawful(c7, sr, |a: StatementData| a.resource);
    lemma_proj_cmp_lawful(c8, sr, |a: StatementData| a.not_resource);
    lemma_chain_lawful(c7, c8);
    let c78 = |a: StatementData, b: StatementData| cmp_then(c7(a, b), c8(a, b));
    lemma_chain_lawful(c6, c78);
    let c678 = |a: StatementData, b: StatementData| cmp_then(c6(a, b), c78(a, b));
    lemma_chain_lawful(c5, c678);
    let c5678 = |a: StatementData, b: StatementData| cmp_then(c5(a, b), c678(a, b));
    lemma_chain_lawful(c4, c5678);
    let c45 = |a: StatementData, b: StatementData| cmp_then(c4(a, b), c5678(a, b));
    lemma_chain_lawful(c3, c45);
    let c345 = |a: StatementData, b: StatementData| cmp_then(c3(a, b), c45(a, b));
    lemma_chain_lawful(c2, c345);
    let c2345 = |a: StatementData, b: StatementData| cmp_then(c2(a, b), c345(a, b));
    lemma_chain_lawful(c1, c2345);
    lemma_lawful_ext(
        |a: StatementData, b: StatementData| cmp_then(c1(a, b), c2345(a, b)),
        |a: StatementData, b: StatementData| statement_cmp(a, b),
    );
}

impl CanonOrd for Statement {
    type M = StatementData;

    open spec fn model(self) -> StatementData {
        self.model()
    }

    open spec fn mcmp(a: StatementData, b: StatementData) -> Cmp {
        statement_cmp(a, b)
    }

    proof fn lemma_mcmp_lawful() {
        lemma_statement_cmp_lawful();
        lemma_lawful_ext(
            |a: StatementData, b: StatementData| statement_cmp(a, b),
            |a: StatementData, b: StatementData| <Statement as CanonOrd>::mcmp(a, b),
        );
    }

    fn cmp_with(&self, other: &Self) -> (c: Cmp) {
        proof {
            reveal(statement_cmp);
            assert((|a: ActionData, b: ActionData| <Action as CanonOrd>::mcmp(a, b)) =~= (
            |x: ActionData, y: ActionData| action_cmp(x, y)));
            assert((|a: ResourceData, b: ResourceData| <Resource as CanonOrd>::mcmp(a, b)) =~= (
            |x: ResourceData, y: ResourceData| resource_cmp(x, y)));
        }
        let c = match (&self.sid, &other.sid) {
            (Option::None, Option::None) => Cmp::Eq,
            (Option::None, Option::Some(_)) => Cmp::Lt,
            (Option::Some(_), Option::None) => Cmp::Gt,
            (Option::Some(x), Option::Some(y)) => x.cmp_with(y),
        };
        if c != Cmp::Eq {
            return c;
        }
        let c = self.effect.cmp_with(&other.effect);
        if c != Cmp::Eq {
            return c;
        }
        let c = match (&self.principal, &other.principal) {
            (Option::None, Option::None) => Cmp::Eq,
            (Option::None, Option::Some(_)) => Cmp::Lt,
            (Option::Some(_), Option::None) => Cmp::Gt,
            (Option::Some(x), Option::Some(y)) => x.cmp_with(y),
        };
        if c != Cmp::Eq {
            return c;
        }
        let c = match (&self.not_principal, &other.not_principal) {
            (Option::None, Option::None) => Cmp::Eq,
            (Option::None, Option::Some(_)) => Cmp::Lt,
            (Option::Some(_), Option::None) => Cmp::Gt,
            (Option::Some(x), Option::Some(y)) => x.cmp_with(y),
        };
        if c != Cmp::Eq {
            return c;
        }
        let c = self.action.cmp_sets(&other.action);
        if c != Cmp::Eq {
            return c;
        }
        let c = self.not_action.cmp_sets(&other.not_action);
        if c != Cmp::Eq {
            return c;
        }
        let c = self.resource.cmp_sets(&other.resource);
        if c != Cmp::Eq {
            return c;
        }
        self.not_resource.cmp_sets(&other.not_resource)
    }
}

/// Mathematical model of a whole policy document.
pub struct PolicyData {
    pub version: Option<Seq<char>>,
    pub id: Option<Seq<char>>,
    pub statement: Seq<StatementData>,
}

/// The models of a vector of statements, in order.
pub open spec fn stmts_model(v: Vec<Statement>) -> Seq<StatementData> {
    v@.map_values(|s: Statement| s.model())
}

/// A policy document: optional version and id, and its statements.
#[derive(Debug, PartialEq, Eq)]
pub struct Policy {
    pub version: Option<String>,
    pub id: Option<String>,
    pub statement: Vec<Statement>,
}

impl Policy {
    pub open spec fn model(self) -> PolicyData {
        PolicyData {
            version: match self.version {
                Option::Some(s) => Option::Some(s@),
                Option::None => Option::None,
            },
            id: match self.id {
                Option::Some(s) => Option::Some(s@),
                Option::None => Option::None,
            },
            statement: stmts_model(self.statement),
        }
    }

    pub open spec fn wf(self) -> bool {
        forall|i: int| 0 <= i < self.statement@.len() ==> (#[trigger] self.statement@[i]).wf()
    }
}

} // verus!
