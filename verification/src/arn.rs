use vstd::prelude::*;
use vstd::string::{StrSliceExecFns, StringExecFns};
use crate::cmp3::{Cmp, CanonOrd, cmp_then, lawful_cmp, lemma_chain_lawful, lemma_lawful_ext};
use crate::seqcmp::{text_cmp, lemma_text_cmp_lawful, lemma_text_cmp_eq_is_eq};
use crate::strutil::{find_idx, split_first, find_char_from, lemma_split_first_props,
    lemma_split_marker, text_compare};

verus! {

/// Mathematical model of an Amazon Resource Name: five text fields.
pub struct ArnData {
    pub partition: Seq<char>,
    pub service: Seq<char>,
    pub region: Seq<char>,
    pub account: Seq<char>,
    pub resource: Seq<char>,
}

/// A structured resource identifier `arn:partition:service:region:account:resource`.
#[derive(Debug, PartialEq, Eq)]
pub struct Arn {
    pub partition: String,
    pub service: String,
    pub region: String,
    pub account: String,
    pub resource: String,
}

/// `s` starts with the four characters `arn:`.
pub open spec fn has_arn_prefix(s: Seq<char>) -> bool {
    s.len() >= 4 && s[0] == 'a' && s[1] == 'r' && s[2] == 'n' && s[3] == ':'
}

/// `s` is made of decimal digits only.
pub open spec fn all_digits(s: Seq<char>) -> bool {
    forall|k: int| 0 <= k < s.len() ==> '0' <= #[trigger] s[k] && s[k] <= '9'
}

/// What parsing an ARN yields: either the five fields, or the exact error
/// message.
///
/// A full-form text takes the first five colon-delimited segments; the whole
/// remainder, embedded colons included, is the resource. A bare string of
/// twelve digits is the account shorthand for `arn:aws:iam::<digits>:root`.
pub open spec fn spec_parse_arn(s: Seq<char>) -> Result<ArnData, Seq<char>> {
    if has_arn_prefix(s) {
        let r0 = s.skip(4);
        match split_first(r0, ':') {
            Option::None => Result::Err("missing service part"@),
            Option::Some((partition, r1)) => match split_first(r1, ':') {
                Option::None => Result::Err("missing region part"@),
                Option::Some((service, r2)) => match split_first(r2, ':') {
                    Option::None => Result::Err("missing account part"@),
                    Option::Some((region, r3)) => match split_first(r3, ':') {
                        Option::None => Result::Err("missing resource part"@),
                        Option::Some((account, resource)) => Result::Ok(
                            ArnData { partition, service, region, account, resource },
                        ),
                    },
                },
            },
        }
    } else if s.len() == 12 && all_digits(s) {
        Result::Ok(
            ArnData {
                partition: "aws"@,
                service: "iam"@,
                region: Seq::empty(),
                account: s,
                resource: "root"@,
            },
        )
    } else {
        Result::Err("illegal ARN: `"@ + s + "`"@)
    }
}

/// The canonical text of an ARN: the five fields joined by colons after the
/// `arn:` prefix.
pub open spec fn spec_format_arn(a: ArnData) -> Seq<char> {
    seq!['a', 'r', 'n', ':'] + a.partition + seq![':'] + a.service + seq![':'] + a.region
        + seq![':'] + a.account + seq![':'] + a.resource
}

/// Canonical comparison of ARNs: lexicographic over the five fields in order.
pub open spec fn arn_cmp(a: ArnData, b: ArnData) -> Cmp {
    cmp_then(
        text_cmp(a.partition, b.partition),
        cmp_then(
            text_cmp(a.service, b.service),
            cmp_then(
                text_cmp(a.region, b.region),
                cmp_then(text_cmp(a.account, b.account), text_cmp(a.resource, b.resource)),
            ),
        ),
    )
}

pub proof fn lemma_arn_cmp_lawful()
    ensures
        lawful_cmp(|a: ArnData, b: ArnData| arn_cmp(a, b)),
{
    let tc = |x: Seq<char>, y: Seq<char>| text_cmp(x, y);
    lemma_text_cmp_lawful();
    let c5 = |a: ArnData, b: ArnData| tc(a.resource, b.resource);
    let c4 = |a: ArnData, b: ArnData| tc(a.account, b.account);
    let c3 = |a: ArnData, b: ArnData| tc(a.region, b.region);
    let c2 = |a: ArnData, b: ArnData| tc(a.service, b.service);
    let c1 = |a: ArnData, b: ArnData| tc(a.partition, b.partition);
    assert(lawful_cmp(c5)) by { lemma_field_cmp_lawful(c5, |a: ArnData| a.resource) }
    assert(lawful_cmp(c4)) by { lemma_field_cmp_lawful(c4, |a: ArnData| a.account) }
    assert(lawful_cmp(c3)) by { lemma_field_cmp_lawful(c3, |a: ArnData| a.region) }
    assert(lawful_cmp(c2)) by { lemma_field_cmp_lawful(c2, |a: ArnData| a.service) }
    assert(lawful_cmp(c1)) by { lemma_field_cmp_lawful(c1, |a: ArnData| a.partition) }
    lemma_chain_lawful(c4, c5);
    let c45 = |a: ArnData, b: ArnData| cmp_then(c4(a, b), c5(a, b));
    lemma_chain_lawful(c3, c45);
    let c345 = |a: ArnData, b: ArnData| cmp_then(c3(a, b), c45(a, b));
    lemma_chain_lawful(c2, c345);
    let c2345 = |a: ArnData, b: ArnData| cmp_then(c2(a, b), c345(a, b));
    lemma_chain_lawful(c1, c2345);
    lemma_lawful_ext(
        |a: ArnData, b: ArnData| cmp_then(c1(a, b), c2345(a, b)),
        |a: ArnData, b: ArnData| arn_cmp(a, b),
    );
}

/// Projecting through a field keeps a text comparison lawful.
proof fn lemma_field_cmp_lawful(c: spec_fn(ArnData, ArnData) -> Cmp, f: spec_fn(ArnData) -> Seq<char>)
    requires
        forall|a: ArnData, b: ArnData| #[trigger] c(a, b) == text_cmp(f(a), f(b)),
    ensures
        lawful_cmp(c),
{
    let tc = |x: Seq<char>, y: Seq<char>| text_cmp(x, y);
    lemma_text_cmp_lawful();
    assert forall|a: ArnData, b: ArnData| #[trigger] c(a, b) is Lt <==> c(b, a) is Gt by {
        assert(tc(f(a), f(b)) is Lt <==> tc(f(b), f(a)) is Gt);
    }
    assert forall|a: ArnData, b: ArnData, d: ArnData|
        #![trigger c(a, b), c(b, d)]
        c(a, b) is Lt && !(c(b, d) is Gt) implies c(a, d) is Lt by {
        assert(tc(f(a), f(b)) is Lt && !(tc(f(b), f(d)) is Gt) ==> tc(f(a), f(d)) is Lt);
    }
    assert forall|a: ArnData, b: ArnData, d: ArnData|
        #![trigger c(a, b), c(b, d)]
        !(c(a, b) is Gt) && c(b, d) is Lt implies c(a, d) is Lt by {
        assert(!(tc(f(a), f(b)) is Gt) && tc(f(b), f(d)) is Lt ==> tc(f(a), f(d)) is Lt);
    }
    assert forall|a: ArnData, b: ArnData, d: ArnData|
        #![trigger c(a, b), c(b, d)]
        c(a, b) is Eq && c(b, d) is Eq implies c(a, d) is Eq by {
        assert(tc(f(a), f(b)) is Eq && tc(f(b), f(d)) is Eq ==> tc(f(a), f(d)) is Eq);
    }
}

/// ARNs that compare `Eq` are field-for-field equal models.
pub proof fn lemma_arn_cmp_eq_is_eq(a: ArnData, b: ArnData)
    requires
        arn_cmp(a, b) is Eq,
    ensures
        a == b,
{
    lemma_text_cmp_eq_is_eq(a.partition, b.partition);
    lemma_text_cmp_eq_is_eq(a.service, b.service);
    lemma_text_cmp_eq_is_eq(a.region, b.region);
    lemma_text_cmp_eq_is_eq(a.account, b.account);
    lemma_text_cmp_eq_is_eq(a.resource, b.resource);
}

impl Arn {
    /// The model of this value.
    pub open spec fn model(self) -> ArnData {
        ArnData {
            partition: self.partition@,
            service: self.service@,
            region: self.region@,
            account: self.account@,
            resource: self.resource@,
        }
    }

    /// Parse an ARN from text, exactly as `spec_parse_arn` says.
    pub fn parse(s: &str) -> (r: Result<Arn, String>)
        ensures
            match r {
                Result::Ok(a) => spec_parse_arn(s@) == Result::<ArnData, Seq<char>>::Ok(a.model()),
                Result::Err(e) => spec_parse_arn(s@) == Result::<ArnData, Seq<char>>::Err(e@),
            },
    {
        let n = s.unicode_len();
        if n >= 4 && s.get_char(0) == 'a' && s.get_char(1) == 'r' && s.get_char(2) == 'n'
            && s.get_char(3) == ':' {
            let i1 = match find_char_from(s, 4, ':') {
                Option::Some(i) => i,
                Option::None => {
                    return Result::Err(String::from_str("missing service part"));
                },
            };
            let i2 = match find_char_from(s, i1 + 1, ':') {
                Option::Some(i) => i,
                Option::None => {
                    proof { lemma_suffix_split(s@, 4, i1 as int, ':') }
                    return Result::Err(String::from_str("missing region part"));
                },
            };
            let i3 = match find_char_from(s, i2 + 1, ':') {
                Option::Some(i) => i,
                Option::None => {
                    proof {
                        lemma_suffix_split(s@, 4, i1 as int, ':');
                        lemma_suffix_split(s@, i1 + 1, i2 as int, ':');
                    }
                    return Result::Err(String::from_str("missing account part"));
                },
            };
            let i4 = match find_char_from(s, i3 + 1, ':') {
                Option::Some(i) => i,
                Option::None => {
                    proof {
                        lemma_suffix_split(s@, 4, i1 as int, ':');
                        lemma_suffix_split(s@, i1 + 1, i2 as int, ':');
                        lemma_suffix_split(s@, i2 + 1, i3 as int, ':');
                    }
                    return Result::Err(String::from_str("missing resource part"));
                },
            };
            proof {
                lemma_suffix_split(s@, 4, i1 as int, ':');
                lemma_suffix_split(s@, i1 + 1, i2 as int, ':');
                lemma_suffix_split(s@, i2 + 1, i3 as int, ':');
                lemma_suffix_split(s@, i3 + 1, i4 as int, ':');
            }
            let a = Arn {
                partition: s.substring_char(4, i1).to_owned(),
                service: s.substring_char(i1 + 1, i2).to_owned(),
                region: s.substring_char(i2 + 1, i3).to_owned(),
                account: s.substring_char(i3 + 1, i4).to_owned(),
                resource: s.substring_char(i4 + 1, n).to_owned(),
            };
            proof {
                assert(s@.subrange(4, i1 as int) =~= s@.skip(4).take(i1 - 4));
                assert(s@.subrange(i1 + 1, i2 as int) =~= s@.skip(i1 + 1).take(i2 - i1 - 1));
                assert(s@.subrange(i2 + 1, i3 as int) =~= s@.skip(i2 + 1).take(i3 - i2 - 1));
                assert(s@.subrange(i3 + 1, i4 as int) =~= s@.skip(i3 + 1).take(i4 - i3 - 1));
                assert(s@.subrange(i4 + 1, n as int) =~= s@.skip(i3 + 1).skip(i4 - i3));
            }
            Result::Ok(a)
        } else {
            let mut digits = n == 12;
            let mut i: usize = 0;
            while i < n
                invariant
                    0 <= i <= n,
                    n == s@.len(),
                    digits == (n == 12 && forall|k: int|
                        0 <= k < i ==> '0' <= #[trigger] s@[k] && s@[k] <= '9'),
                decreases n - i,
            {
                let c = s.get_char(i);
                if (c as u32) < ('0' as u32) || (c as u32) > ('9' as u32) {
                    digits = false;
                }
                i += 1;
            }
            if digits {
                let region = String::new();
                let a = Arn {
                    partition: String::from_str("aws"),
                    service: String::from_str("iam"),
                    region,
                    account: s.to_owned(),
                    resource: String::from_str("root"),
                };
                Result::Ok(a)
            } else {
                let mut m = String::from_str("illegal ARN: `");
                m.append(s);
                m.append("`");
                Result::Err(m)
            }
        }
    }

    /// Render the canonical text of this ARN.
    pub fn format(&self) -> (r: String)
        ensures
            r@ == spec_format_arn(self.model()),
    {
        let mut out = String::from_str("arn:");
        out.append(self.partition.as_str());
        out.append(":");
        out.append(self.service.as_str());
        out.append(":");
        out.append(self.region.as_str());
        out.append(":");
        out.append(self.account.as_str());
        out.append(":");
        out.append(self.resource.as_str());
        proof {
            reveal_strlit("arn:");
            reveal_strlit(":");
            assert(out@ =~= spec_format_arn(self.model()));
        }
        out
    }
}

/// Splitting the suffix `s.skip(from)` at the first marker, which sits at
/// absolute position `j`, yields the segment before it and the suffix after.
proof fn lemma_suffix_split(s: Seq<char>, from: int, j: int, c: char)
    requires
        0 <= from <= j < s.len(),
        find_idx(s.skip(from), c) == j - from,
    ensures
        split_first(s.skip(from), c) == Option::Some(
            (s.skip(from).take(j - from), s.skip(j + 1)),
        ),
{
    assert(s.skip(from).skip(j - from + 1) =~= s.skip(j + 1));
}

impl CanonOrd for Arn {
    type M = ArnData;

    open spec fn model(self) -> ArnData {
        self.model()
    }

    open spec fn mcmp(a: ArnData, b: ArnData) -> Cmp {
        arn_cmp(a, b)
    }

    proof fn lemma_mcmp_lawful() {
        lemma_arn_cmp_lawful();
        lemma_lawful_ext(
            |a: ArnData, b: ArnData| arn_cmp(a, b),
            |a: ArnData, b: ArnData| <Arn as CanonOrd>::mcmp(a, b),
        );
    }

    fn cmp_with(&self, other: &Self) -> (c: Cmp) {
        let c = text_compare(self.partition.as_str(), other.partition.as_str());
        if c != Cmp::Eq {
            return c;
        }
        let c = text_compare(self.service.as_str(), other.service.as_str());
        if c != Cmp::Eq {
            return c;
        }
        let c = text_compare(self.region.as_str(), other.region.as_str());
        if c != Cmp::Eq {
            return c;
        }
        let c = text_compare(self.account.as_str(), other.account.as_str());
        if c != Cmp::Eq {
            return c;
        }
        text_compare(self.resource.as_str(), other.resource.as_str())
    }
}

/// An ARN model whose first four fields are free of colons: every parsed
/// ARN is of this shape, and only such a model formats unambiguously.
pub open spec fn arn_data_valid(a: ArnData) -> bool {
    &&& forall|k: int| 0 <= k < a.partition.len() ==> a.partition[k] != ':'
    &&& forall|k: int| 0 <= k < a.service.len() ==> a.service[k] != ':'
    &&& forall|k: int| 0 <= k < a.region.len() ==> a.region[k] != ':'
    &&& forall|k: int| 0 <= k < a.account.len() ==> a.account[k] != ':'
}

/// Whatever the ARN parser accepts is a valid model.
pub proof fn lemma_parse_arn_valid(s: Seq<char>)
    requires
        spec_parse_arn(s) is Ok,
    ensures
        arn_data_valid(spec_parse_arn(s)->Ok_0),
{
    let a = spec_parse_arn(s)->Ok_0;
    if has_arn_prefix(s) {
        let r0 = s.skip(4);
        lemma_split_first_props(r0, ':');
        let (partition, r1) = split_first(r0, ':')->Some_0;
        lemma_split_first_props(r1, ':');
        let (service, r2) = split_first(r1, ':')->Some_0;
        lemma_split_first_props(r2, ':');
        let (region, r3) = split_first(r2, ':')->Some_0;
        lemma_split_first_props(r3, ':');
    } else {
        reveal_strlit("aws");
        reveal_strlit("iam");
        reveal_strlit("root");
        assert forall|k: int| 0 <= k < a.account.len() implies a.account[k] != ':' by {
            assert('0' <= a.account[k] && a.account[k] <= '9');
        }
    }
}

/// Any text the ARN parser accepts formats back to a text that parses to the
/// same structured value: parsing after formatting loses nothing, even for
/// the twelve-digit account shorthand, whose canonical text is the full form.
pub proof fn lemma_arn_roundtrip(s: Seq<char>)
    requires
        spec_parse_arn(s) is Ok,
    ensures
        spec_parse_arn(spec_format_arn(spec_parse_arn(s)->Ok_0)) == spec_parse_arn(s),
{
    lemma_parse_arn_valid(s);
    lemma_arn_format_parses(spec_parse_arn(s)->Ok_0);
}

/// Formatting parses back exactly when the first four fields hold no colon.
pub proof fn lemma_arn_format_parses(a: ArnData)
    requires
        arn_data_valid(a),
    ensures
        spec_parse_arn(spec_format_arn(a)) == Result::<ArnData, Seq<char>>::Ok(a),
{
    let t = spec_format_arn(a);
    assert(has_arn_prefix(t));
    let r0 = t.skip(4);
    assert(r0 =~= a.partition + seq![':'] + (a.service + seq![':'] + (a.region + seq![':'] + (
    a.account + seq![':'] + a.resource))));
    lemma_split_marker(
        a.partition,
        ':',
        a.service + seq![':'] + (a.region + seq![':'] + (a.account + seq![':'] + a.resource)),
    );
    lemma_split_marker(
        a.service,
        ':',
        a.region + seq![':'] + (a.account + seq![':'] + a.resource),
    );
    lemma_split_marker(a.region, ':', a.account + seq![':'] + a.resource);
    lemma_split_marker(a.account, ':', a.resource);
    assert(a.service + seq![':'] + (a.region + seq![':'] + (a.account + seq![':'] + a.resource))
        =~= a.service + seq![':'] + (a.region + seq![':'] + (a.account + seq![':'] + a.resource)));
    assert(spec_parse_arn(t) matches Result::Ok(b) && b == a);
}

} // verus!
