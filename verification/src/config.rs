use vstd::prelude::*;
use vstd::string::{StrSliceExecFns, StringExecFns};
use crate::cmp3::{Cmp, CanonOrd, lawful_cmp, lemma_lawful_ext};
use crate::seqcmp::{text_cmp, seq_cmp, lemma_text_cmp_lawful, lemma_seq_cmp_lawful};
use crate::strutil::{find_idx, find_char_from, text_compare, lemma_find_idx_props,
    lemma_find_idx_is_first, lemma_find_idx_absent};
use crate::ordset::{OrdSet, spec_set_insert, strictly_sorted, lemma_set_insert_sorted,
    lemma_set_insert_elems, lemma_set_insert_len};
use crate::cmp3::{lemma_cmp_refl};
use crate::jsonval::{JsonVal, JsonData, entry_models, keys_unique, json_depth, entries_depth,
    lemma_entries_depth, lemma_entries_depth_bound};
use crate::jsonio::{json_parse, json_print, spec_json_of_text, spec_pretty_text, nums_canonical};
use crate::decode::{msg_expected_map, lemma_entry_models_drop};

verus! {

broadcast use vstd::seq::group_seq_axioms, vstd::std_specs::vec::group_vec_axioms;

/// Mathematical model of a configuration key: a plain name, or a set of
/// language tags.
pub enum KeyData {
    Config(Seq<char>),
    Lang(Seq<Seq<char>>),
}

/// A configuration key: a plain name, or a bracketed set of language tags
/// held in canonical order.
#[derive(Debug, PartialEq, Eq)]
pub enum Key {
    Config(String),
    Lang(OrdSet<String>),
}

/// Gather the bracketed groups of `s` into an ordered set of tags; text
/// between groups is passed over, an opening bracket without a closing
/// one — or a closing bracket before the next opening one — is the error.
pub open spec fn spec_parse_brackets(s: Seq<char>, acc: Seq<Seq<char>>) -> Result<
    Seq<Seq<char>>,
    Seq<char>,
>
    decreases s.len(),
    via spec_parse_brackets_decreases
{
    let from = find_idx(s, '[');
    if from < 0 {
        Result::Ok(acc)
    } else {
        let to = find_idx(s, ']');
        if to < from {
            Result::Err("unmatched opening bracket"@)
        } else {
            spec_parse_brackets(
                s.skip(to + 1),
                spec_set_insert(
                    |a: Seq<char>, b: Seq<char>| text_cmp(a, b),
                    acc,
                    s.subrange(from + 1, to),
                ),
            )
        }
    }
}

#[via_fn]
proof fn spec_parse_brackets_decreases(s: Seq<char>, acc: Seq<Seq<char>>) {
    crate::strutil::lemma_find_idx_props(s, '[');
    crate::strutil::lemma_find_idx_props(s, ']');
}

/// What parsing a key yields: a text that does not open with a bracket is
/// a plain name; any other is read as bracketed language tags.
pub open spec fn spec_parse_key(s: Seq<char>) -> Result<KeyData, Seq<char>> {
    if s.len() == 0 || s[0] != '[' {
        Result::Ok(KeyData::Config(s))
    } else {
        match spec_parse_brackets(s, Seq::empty()) {
            Result::Ok(tags) => Result::Ok(KeyData::Lang(tags)),
            Result::Err(e) => Result::Err(e),
        }
    }
}

/// The tags joined back: each in brackets, nothing between them.
pub open spec fn spec_join_tags(items: Seq<Seq<char>>) -> Seq<char>
    decreases items.len(),
{
    if items.len() == 0 {
        Seq::empty()
    } else if items.len() == 1 {
        items[0]
    } else {
        items[0] + seq![']', '['] + spec_join_tags(items.drop_first())
    }
}

/// The canonical text of a key.
pub open spec fn spec_format_key(k: KeyData) -> Seq<char> {
    match k {
        KeyData::Config(s) => s,
        KeyData::Lang(items) => seq!['['] + spec_join_tags(items) + seq![']'],
    }
}

/// Canonical comparison of keys: plain names before tag sets, each kind
/// ordered within itself.
pub open spec fn key_cmp(a: KeyData, b: KeyData) -> Cmp {
    match (a, b) {
        (KeyData::Config(x), KeyData::Config(y)) => text_cmp(x, y),
        (KeyData::Config(_), KeyData::Lang(_)) => Cmp::Lt,
        (KeyData::Lang(_), KeyData::Config(_)) => Cmp::Gt,
        (KeyData::Lang(x), KeyData::Lang(y)) => seq_cmp(
            |p: Seq<char>, q: Seq<char>| text_cmp(p, q),
            x,
            y,
        ),
    }
}

pub proof fn lemma_key_cmp_lawful()
    ensures
        lawful_cmp(|a: KeyData, b: KeyData| key_cmp(a, b)),
{
    let tc = |p: Seq<char>, q: Seq<char>| text_cmp(p, q);
    lemma_text_cmp_lawful();
    lemma_seq_cmp_lawful(tc);
    let st = |x: Seq<Seq<char>>, y: Seq<Seq<char>>| seq_cmp(tc, x, y);
    let c = |a: KeyData, b: KeyData| key_cmp(a, b);
    assert forall|a: KeyData, b: KeyData| #[trigger] c(a, b) is Lt <==> c(b, a) is Gt by {
        if a is Config && b is Config {
            assert(tc(a->Config_0, b->Config_0) is Lt <==> tc(b->Config_0, a->Config_0) is Gt);
        }
        if a is Lang && b is Lang {
            assert(st(a->Lang_0, b->Lang_0) is Lt <==> st(b->Lang_0, a->Lang_0) is Gt);
        }
    }
    assert forall|a: KeyData, b: KeyData, d: KeyData|
        #![trigger c(a, b), c(b, d)]
        c(a, b) is Lt && !(c(b, d) is Gt) implies c(a, d) is Lt by {
        lemma_key_cmp_step(a, b, d);
    }
    assert forall|a: KeyData, b: KeyData, d: KeyData|
        #![trigger c(a, b), c(b, d)]
        !(c(a, b) is Gt) && c(b, d) is Lt implies c(a, d) is Lt by {
        lemma_key_cmp_step(a, b, d);
    }
    assert forall|a: KeyData, b: KeyData, d: KeyData|
        #![trigger c(a, b), c(b, d)]
        c(a, b) is Eq && c(b, d) is Eq implies c(a, d) is Eq by {
        lemma_key_cmp_step(a, b, d);
    }
}

proof fn lemma_key_cmp_step(a: KeyData, b: KeyData, d: KeyData)
    ensures
        key_cmp(a, b) is Lt && !(key_cmp(b, d) is Gt) ==> key_cmp(a, d) is Lt,
        !(key_cmp(a, b) is Gt) && key_cmp(b, d) is Lt ==> key_cmp(a, d) is Lt,
        key_cmp(a, b) is Eq && key_cmp(b, d) is Eq ==> key_cmp(a, d) is Eq,
{
    let tc = |p: Seq<char>, q: Seq<char>| text_cmp(p, q);
    lemma_text_cmp_lawful();
    lemma_seq_cmp_lawful(tc);
    let st = |x: Seq<Seq<char>>, y: Seq<Seq<char>>| seq_cmp(tc, x, y);
    if a is Config && b is Config && d is Config {
        let (x, y, z) = (a->Config_0, b->Config_0, d->Config_0);
        assert(tc(x, y) is Lt && !(tc(y, z) is Gt) ==> tc(x, z) is Lt);
        assert(!(tc(x, y) is Gt) && tc(y, z) is Lt ==> tc(x, z) is Lt);
        assert(tc(x, y) is Eq && tc(y, z) is Eq ==> tc(x, z) is Eq);
    }
    if a is Lang && b is Lang && d is Lang {
        let (x, y, z) = (a->Lang_0, b->Lang_0, d->Lang_0);
        assert(st(x, y) is Lt && !(st(y, z) is Gt) ==> st(x, z) is Lt);
        assert(!(st(x, y) is Gt) && st(y, z) is Lt ==> st(x, z) is Lt);
        assert(st(x, y) is Eq && st(y, z) is Eq ==> st(x, z) is Eq);
    }
}

impl Key {
    /// The model of this value.
    pub open spec fn model(self) -> KeyData {
        match self {
            Key::Config(s) => KeyData::Config(s@),
            Key::Lang(tags) => KeyData::Lang(tags.model()),
        }
    }

    pub open spec fn wf(self) -> bool {
        match self {
            Key::Config(_) => true,
            Key::Lang(tags) => tags.wf(),
        }
    }

    /// Parse a key, exactly as `spec_parse_key` says.
    #[verifier::loop_isolation(false)]
    pub fn parse(s: &str) -> (r: Result<Key, String>)
        ensures
            match r {
                Result::Ok(k) => k.wf() && spec_parse_key(s@) == Result::<KeyData, Seq<char>>::Ok(
                    k.model(),
                ),
                Result::Err(e) => spec_parse_key(s@) == Result::<KeyData, Seq<char>>::Err(e@),
            },
    {
        let n = s.unicode_len();
        if n == 0 || s.get_char(0) != '[' {
            return Result::Ok(Key::Config(s.to_owned()));
        }
        let ghost tcl = |a: Seq<char>, b: Seq<char>| text_cmp(a, b);
        proof {
            assert((|a: Seq<char>, b: Seq<char>| <String as CanonOrd>::mcmp(a, b)) =~= tcl);
        }
        let mut tags: OrdSet<String> = OrdSet::new();
        let mut pos: usize = 0;
        proof {
            assert(tags.model() =~= Seq::<Seq<char>>::empty());
            assert(s@.skip(0) =~= s@);
        }
        while pos < n
            invariant
                0 <= pos <= n,
                tags.wf(),
                spec_parse_brackets(s@, Seq::empty()) == spec_parse_brackets(
                    s@.skip(pos as int),
                    tags.model(),
                ),
            decreases n - pos,
        {
            let ghost suffix = s@.skip(pos as int);
            let from = match find_char_from(s, pos, '[') {
                Option::Some(j) => j,
                Option::None => {
                    break ;
                },
            };
            let to = match find_char_from(s, pos, ']') {
                Option::Some(j) => j,
                Option::None => {
                    proof {
                        assert(find_idx(suffix, '[') == from - pos >= 0);
                    }
                    return Result::Err(String::from_str("unmatched opening bracket"));
                },
            };
            proof {
                assert(find_idx(suffix, '[') == from - pos);
                assert(find_idx(suffix, ']') == to - pos);
            }
            if to < from {
                return Result::Err(String::from_str("unmatched opening bracket"));
            }
            let tag = s.substring_char(from + 1, to).to_owned();
            proof {
                assert(s@.subrange(from + 1, to as int) =~= suffix.subrange(
                    from - pos + 1,
                    to - pos,
                ));
            }
            tags.insert(tag);
            let ghost oldpos = pos as int;
            pos = to + 1;
            proof {
                assert(s@.skip(pos as int) =~= suffix.skip(to - oldpos + 1));
            }
        }
        proof {
            if pos < n {
                // left by break: no opening bracket remains
                assert(find_idx(s@.skip(pos as int), '[') < 0);
            } else {
                assert(s@.skip(pos as int) =~= Seq::<char>::empty());
            }
        }
        Result::Ok(Key::Lang(tags))
    }

    /// Render the canonical text of this key.
    #[verifier::loop_isolation(false)]
    pub fn format(&self) -> (r: String)
        ensures
            r@ == spec_format_key(self.model()),
    {
        match self {
            Key::Config(s) => s.clone(),
            Key::Lang(tags) => {
                let ghost items = tags.model();
                let mut out = String::from_str("[");
                let n = tags.items.len();
                let mut i: usize = 0;
                proof {
                    reveal_strlit("[");
                    assert(out@ =~= seq!['[']);
                }
                while i < n
                    invariant
                        0 <= i <= n,
                        out@ == seq!['['] + spec_join_tags(items.take(i as int)),
                    decreases n - i,
                {
                    let ghost before = out@;
                    if i > 0 {
                        out.append("][");
                    }
                    out.append(tags.items[i].as_str());
                    proof {
                        reveal_strlit("][");
                        assert(tags.items@[i as int]@ == items[i as int]);
                        if i == 0 {
                            assert(items.take(1)[0] == items[0]);
                            assert(spec_join_tags(items.take(1)) == items[0]);
                            assert(out@ =~= seq!['['] + spec_join_tags(items.take(1)));
                        } else {
                            lemma_join_tags_snoc(items.take(i as int), items[i as int]);
                            assert(items.take(i as int).push(items[i as int]) =~= items.take(
                                i + 1,
                            ));
                            assert(out@ =~= seq!['['] + spec_join_tags(items.take(i + 1)));
                        }
                    }
                    i += 1;
                }
                out.append("]");
                proof {
                    reveal_strlit("]");
                    assert(items.take(n as int) =~= items);
                    assert(out@ =~= seq!['['] + spec_join_tags(items) + seq![']']);
                }
                out
            },
        }
    }
}

/// Joining after appending a tag: the new tag arrives in fresh brackets.
proof fn lemma_join_tags_snoc(items: Seq<Seq<char>>, x: Seq<char>)
    requires
        items.len() >= 1,
    ensures
        spec_join_tags(items.push(x)) =~= spec_join_tags(items) + seq![']', '['] + x,
    decreases items.len(),
{
    if items.len() == 1 {
        assert(items.push(x).drop_first() =~= seq![x]);
        assert(spec_join_tags(seq![x]) == x);
    } else {
        lemma_join_tags_snoc(items.drop_first(), x);
        assert(items.push(x).drop_first() =~= items.drop_first().push(x));
        assert(spec_join_tags(items.push(x)) == items[0] + seq![']', '['] + spec_join_tags(
            items.drop_first().push(x),
        ));
        assert(items[0] + seq![']', '['] + (spec_join_tags(items.drop_first()) + seq![']', '[']
            + x) =~= (items[0] + seq![']', '['] + spec_join_tags(items.drop_first())) + seq![
            ']',
            '[',
        ] + x);
    }
}

impl CanonOrd for Key {
    type M = KeyData;

    open spec fn model(self) -> KeyData {
        self.model()
    }

    open spec fn mcmp(a: KeyData, b: KeyData) -> Cmp {
        key_cmp(a, b)
    }

    proof fn lemma_mcmp_lawful() {
        lemma_key_cmp_lawful();
        lemma_lawful_ext(
            |a: KeyData, b: KeyData| key_cmp(a, b),
            |a: KeyData, b: KeyData| <Key as CanonOrd>::mcmp(a, b),
        );
    }

    fn cmp_with(&self, other: &Self) -> (c: Cmp) {
        proof {
            assert((|a: Seq<char>, b: Seq<char>| <String as CanonOrd>::mcmp(a, b)) =~= (
            |p: Seq<char>, q: Seq<char>| text_cmp(p, q)));
        }
        match (self, other) {
            (Key::Config(x), Key::Config(y)) => text_compare(x.as_str(), y.as_str()),
            (Key::Config(_), Key::Lang(_)) => Cmp::Lt,
            (Key::Lang(_), Key::Config(_)) => Cmp::Gt,
            (Key::Lang(x), Key::Lang(y)) => x.cmp_sets(y),
        }
    }
}

/// Put a binding at its place in the key order; a binding whose key
/// compares `Eq` to a present one replaces that binding in place.
pub open spec fn spec_config_put(
    s: Seq<(KeyData, JsonData)>,
    k: KeyData,
    v: JsonData,
) -> Seq<(KeyData, JsonData)>
    decreases s.len(),
{
    if s.len() == 0 {
        seq![(k, v)]
    } else {
        match key_cmp(k, s[0].0) {
            Cmp::Lt => seq![(k, v)] + s,
            Cmp::Eq => seq![(k, v)] + s.drop_first(),
            Cmp::Gt => seq![s[0]] + spec_config_put(s.drop_first(), k, v),
        }
    }
}

/// Sorting the bindings of a configuration object: each key is parsed and
/// the binding placed in key order, later equal keys replacing earlier
/// ones.
pub open spec fn spec_config_fold(
    entries: Seq<(Seq<char>, JsonData)>,
    acc: Seq<(KeyData, JsonData)>,
) -> Result<Seq<(KeyData, JsonData)>, Seq<char>>
    decreases entries.len(),
{
    if entries.len() == 0 {
        Result::Ok(acc)
    } else {
        match spec_parse_key(entries[0].0) {
            Result::Err(e) => Result::Err(e),
            Result::Ok(k) => spec_config_fold(
                entries.drop_first(),
                spec_config_put(acc, k, entries[0].1),
            ),
        }
    }
}

/// The sorted bindings written back out under their canonical texts.
pub open spec fn spec_config_entries_out(s: Seq<(KeyData, JsonData)>) -> Seq<(Seq<char>, JsonData)> {
    s.map_values(|kv: (KeyData, JsonData)| (spec_format_key(kv.0), kv.1))
}

/// What canonicalizing a configuration object yields.
pub open spec fn spec_canonicalize_config(d: JsonData) -> Result<JsonData, Seq<char>> {
    match d {
        JsonData::Obj(entries) => match spec_config_fold(entries, Seq::empty()) {
            Result::Err(e) => Result::Err(e),
            Result::Ok(s) => Result::Ok(JsonData::Obj(spec_config_entries_out(s))),
        },
        _ => Result::Err(msg_expected_map()),
    }
}

/// Unfolding the put past a prefix of strictly smaller keys.
proof fn lemma_config_put_skip(s: Seq<(KeyData, JsonData)>, k: KeyData, v: JsonData, i: int)
    requires
        0 <= i <= s.len(),
        forall|m: int| 0 <= m < i ==> key_cmp(k, (#[trigger] s[m]).0) is Gt,
    ensures
        spec_config_put(s, k, v) =~= s.take(i) + spec_config_put(s.skip(i), k, v),
    decreases i,
{
    if i == 0 {
        assert(s.skip(0) =~= s);
    } else {
        assert(key_cmp(k, s[0].0) is Gt);
        lemma_config_put_skip(s.drop_first(), k, v, i - 1);
        assert(s.drop_first().skip(i - 1) =~= s.skip(i));
        assert(seq![s[0]] + (s.drop_first().take(i - 1) + spec_config_put(s.skip(i), k, v))
            =~= s.take(i) + spec_config_put(s.skip(i), k, v));
    }
}

/// A key shape the parser can produce: a plain name that does not open
/// with a bracket, or a non-empty, strictly ordered set of tags free of
/// closing brackets.
pub open spec fn key_data_parsed(k: KeyData) -> bool {
    match k {
        KeyData::Config(s) => s.len() == 0 || s[0] != '[',
        KeyData::Lang(items) => {
            &&& items.len() > 0
            &&& strictly_sorted(|a: Seq<char>, b: Seq<char>| text_cmp(a, b), items)
            &&& forall|i: int, ch: int|
                0 <= i < items.len() && 0 <= ch < items[i].len() ==> (#[trigger] items[i][ch])
                    != ']'
        },
    }
}

/// Whatever the bracket walk yields is non-empty, ordered, and free of
/// closing brackets, given an accumulator of that shape.
proof fn lemma_parse_brackets_parsed(s: Seq<char>, acc: Seq<Seq<char>>)
    requires
        spec_parse_brackets(s, acc) is Ok,
        strictly_sorted(|a: Seq<char>, b: Seq<char>| text_cmp(a, b), acc),
        forall|i: int, ch: int|
            0 <= i < acc.len() && 0 <= ch < acc[i].len() ==> (#[trigger] acc[i][ch]) != ']',
    ensures
        spec_parse_brackets(s, acc)->Ok_0.len() >= acc.len(),
        find_idx(s, '[') >= 0 ==> spec_parse_brackets(s, acc)->Ok_0.len() >= 1,
        strictly_sorted(
            |a: Seq<char>, b: Seq<char>| text_cmp(a, b),
            spec_parse_brackets(s, acc)->Ok_0,
        ),
        forall|i: int, ch: int|
            0 <= i < spec_parse_brackets(s, acc)->Ok_0.len() && 0 <= ch < spec_parse_brackets(
                s,
                acc,
            )->Ok_0[i].len() ==> (#[trigger] spec_parse_brackets(s, acc)->Ok_0[i][ch]) != ']',
    decreases s.len(),
{
    let tc = |a: Seq<char>, b: Seq<char>| text_cmp(a, b);
    lemma_text_cmp_lawful();
    let from = find_idx(s, '[');
    if from < 0 {
    } else {
        let to = find_idx(s, ']');
        lemma_find_idx_props(s, '[');
        lemma_find_idx_props(s, ']');
        let tag = s.subrange(from + 1, to);
        assert forall|ch: int| 0 <= ch < tag.len() implies tag[ch] != ']' by {
            assert(tag[ch] == s[ch + from + 1]);
        }
        let acc2 = spec_set_insert(tc, acc, tag);
        lemma_set_insert_sorted(tc, acc, tag);
        lemma_set_insert_elems(tc, acc, tag);
        lemma_set_insert_len(tc, acc, tag);
        assert forall|i: int, ch: int|
            0 <= i < acc2.len() && 0 <= ch < acc2[i].len() implies (#[trigger] acc2[i][ch])
            != ']' by {
            if acc2[i] != tag {
                let j = choose|j: int| 0 <= j < acc.len() && acc[j] == acc2[i];
                assert(acc[j][ch] != ']');
            }
        }
        lemma_parse_brackets_parsed(s.skip(to + 1), acc2);
    }
}

/// Whatever the key parser accepts has the parsed shape.
proof fn lemma_parse_key_parsed(s: Seq<char>)
    requires
        spec_parse_key(s) is Ok,
    ensures
        key_data_parsed(spec_parse_key(s)->Ok_0),
{
    if s.len() == 0 || s[0] != '[' {
    } else {
        lemma_find_idx_is_first(s, '[', 0);
        lemma_parse_brackets_parsed(s, Seq::empty());
    }
}

/// Where the first closing bracket of a joined tag text sits: nowhere for
/// a single tag, right after the first tag otherwise.
proof fn lemma_join_tags_first(items: Seq<Seq<char>>)
    requires
        items.len() > 0,
        forall|i: int, ch: int|
            0 <= i < items.len() && 0 <= ch < items[i].len() ==> (#[trigger] items[i][ch]) != ']',
    ensures
        items.len() == 1 ==> find_idx(spec_join_tags(items), ']') == -1,
        items.len() >= 2 ==> find_idx(spec_join_tags(items), ']') == items[0].len(),
{
    let joined = spec_join_tags(items);
    if items.len() == 1 {
        assert forall|ch: int| 0 <= ch < joined.len() implies joined[ch] != ']' by {
            assert(items[0][ch] != ']');
        }
        lemma_find_idx_absent(joined, ']');
    } else {
        assert(joined[items[0].len() as int] == ']');
        assert forall|ch: int| 0 <= ch < items[0].len() implies joined[ch] != ']' by {
            assert(joined[ch] == items[0][ch]);
        }
        lemma_find_idx_is_first(joined, ']', items[0].len() as int);
    }
}

/// Joining is injective over non-empty tag sequences free of closing
/// brackets: the joined text can be cut back apart at its closing
/// brackets.
proof fn lemma_join_tags_injective(x: Seq<Seq<char>>, y: Seq<Seq<char>>)
    requires
        x.len() > 0,
        y.len() > 0,
        forall|i: int, ch: int|
            0 <= i < x.len() && 0 <= ch < x[i].len() ==> (#[trigger] x[i][ch]) != ']',
        forall|i: int, ch: int|
            0 <= i < y.len() && 0 <= ch < y[i].len() ==> (#[trigger] y[i][ch]) != ']',
        spec_join_tags(x) == spec_join_tags(y),
    ensures
        x =~= y,
    decreases x.len(),
{
    lemma_join_tags_first(x);
    lemma_join_tags_first(y);
    let jx = spec_join_tags(x);
    let jy = spec_join_tags(y);
    if x.len() == 1 && y.len() == 1 {
        assert(x[0] == jx && y[0] == jy);
    } else if x.len() == 1 || y.len() == 1 {
        assert(find_idx(jx, ']') == find_idx(jy, ']'));
        assert(false);
    } else {
        let la = x[0].len() as int;
        assert(find_idx(jx, ']') == la && find_idx(jy, ']') == y[0].len());
        assert(x[0] =~= jx.subrange(0, la));
        assert(y[0] =~= jy.subrange(0, la));
        assert(spec_join_tags(x.drop_first()) =~= jx.skip(la + 2));
        assert(spec_join_tags(y.drop_first()) =~= jy.skip(la + 2));
        assert forall|i: int, ch: int|
            0 <= i < x.drop_first().len() && 0 <= ch < x.drop_first()[i].len() implies (
        #[trigger] x.drop_first()[i][ch]) != ']' by {
            assert(x.drop_first()[i] == x[i + 1]);
        }
        assert forall|i: int, ch: int|
            0 <= i < y.drop_first().len() && 0 <= ch < y.drop_first()[i].len() implies (
        #[trigger] y.drop_first()[i][ch]) != ']' by {
            assert(y.drop_first()[i] == y[i + 1]);
        }
        lemma_join_tags_injective(x.drop_first(), y.drop_first());
        assert(x =~= seq![x[0]] + x.drop_first());
        assert(y =~= seq![y[0]] + y.drop_first());
    }
}

/// Two parsed keys with the same canonical text are the same key.
proof fn lemma_format_key_injective(a: KeyData, b: KeyData)
    requires
        key_data_parsed(a),
        key_data_parsed(b),
        spec_format_key(a) == spec_format_key(b),
    ensures
        a == b,
{
    match (a, b) {
        (KeyData::Config(_), KeyData::Config(_)) => {},
        (KeyData::Config(sa), KeyData::Lang(_)) => {
            assert(spec_format_key(b)[0] == '[');
            assert(spec_format_key(b).len() >= 2);
            assert(sa[0] == '[');
        },
        (KeyData::Lang(_), KeyData::Config(sb)) => {
            assert(spec_format_key(a)[0] == '[');
            assert(spec_format_key(a).len() >= 2);
            assert(sb[0] == '[');
        },
        (KeyData::Lang(xa), KeyData::Lang(xb)) => {
            let fa = spec_format_key(a);
            assert(spec_join_tags(xa) =~= fa.subrange(1, fa.len() - 1));
            assert(spec_join_tags(xb) =~= fa.subrange(1, fa.len() - 1));
            lemma_join_tags_injective(xa, xb);
        },
    }
}

/// Every key after a put is the new one or one already present.
proof fn lemma_config_put_keys(s: Seq<(KeyData, JsonData)>, k: KeyData, v: JsonData, i: int)
    requires
        0 <= i < spec_config_put(s, k, v).len(),
    ensures
        spec_config_put(s, k, v)[i].0 == k || exists|m: int|
            0 <= m < s.len() && s[m].0 == spec_config_put(s, k, v)[i].0,
    decreases s.len(),
{
    let u = spec_config_put(s, k, v);
    if s.len() == 0 {
    } else {
        match key_cmp(k, s[0].0) {
            Cmp::Lt => {
                if i > 0 {
                    assert(s[i - 1].0 == u[i].0);
                }
            },
            Cmp::Eq => {
                if i > 0 {
                    assert(s[i].0 == u[i].0);
                }
            },
            Cmp::Gt => {
                if i == 0 {
                    assert(s[0].0 == u[0].0);
                } else {
                    lemma_config_put_keys(s.drop_first(), k, v, i - 1);
                    let rest = spec_config_put(s.drop_first(), k, v);
                    assert(u[i] == rest[i - 1]);
                    if rest[i - 1].0 != k {
                        let m = choose|m: int|
                            0 <= m < s.drop_first().len() && s.drop_first()[m].0 == rest[i - 1].0;
                        assert(s[m + 1].0 == rest[i - 1].0);
                    }
                }
            },
        }
    }
}

/// The bindings stay strictly sorted by key across a put.
pub open spec fn config_keys_sorted(s: Seq<(KeyData, JsonData)>) -> bool {
    forall|i: int, j: int|
        0 <= i < j < s.len() ==> key_cmp((#[trigger] s[i]).0, (#[trigger] s[j]).0) is Lt
}

proof fn lemma_config_put_sorted(s: Seq<(KeyData, JsonData)>, k: KeyData, v: JsonData)
    requires
        config_keys_sorted(s),
    ensures
        config_keys_sorted(spec_config_put(s, k, v)),
    decreases s.len(),
{
    let c = |a: KeyData, b: KeyData| key_cmp(a, b);
    lemma_key_cmp_lawful();
    let u = spec_config_put(s, k, v);
    if s.len() == 0 {
    } else {
        match key_cmp(k, s[0].0) {
            Cmp::Lt => {
                assert forall|i: int, j: int| 0 <= i < j < u.len() implies key_cmp(
                    (#[trigger] u[i]).0,
                    (#[trigger] u[j]).0,
                ) is Lt by {
                    if i == 0 {
                        assert(u[j] == s[j - 1]);
                        if j > 1 {
                            assert(key_cmp(s[0].0, s[j - 1].0) is Lt);
                            assert(c(k, s[0].0) is Lt && !(c(s[0].0, s[j - 1].0) is Gt) ==> c(
                                k,
                                s[j - 1].0,
                            ) is Lt);
                        }
                    } else {
                        assert(u[i] == s[i - 1] && u[j] == s[j - 1]);
                    }
                }
            },
            Cmp::Eq => {
                assert forall|i: int, j: int| 0 <= i < j < u.len() implies key_cmp(
                    (#[trigger] u[i]).0,
                    (#[trigger] u[j]).0,
                ) is Lt by {
                    if i == 0 {
                        assert(u[j] == s[j]);
                        assert(key_cmp(s[0].0, s[j].0) is Lt);
                        assert(!(c(k, s[0].0) is Gt) && c(s[0].0, s[j].0) is Lt ==> c(
                            k,
                            s[j].0,
                        ) is Lt);
                    } else {
                        assert(u[i] == s[i] && u[j] == s[j]);
                    }
                }
            },
            Cmp::Gt => {
                assert forall|i: int, j: int| 0 <= i < j < s.drop_first().len() implies key_cmp(
                    (#[trigger] s.drop_first()[i]).0,
                    (#[trigger] s.drop_first()[j]).0,
                ) is Lt by {
                    assert(s.drop_first()[i] == s[i + 1] && s.drop_first()[j] == s[j + 1]);
                }
                lemma_config_put_sorted(s.drop_first(), k, v);
                let rest = spec_config_put(s.drop_first(), k, v);
                assert forall|i: int, j: int| 0 <= i < j < u.len() implies key_cmp(
                    (#[trigger] u[i]).0,
                    (#[trigger] u[j]).0,
                ) is Lt by {
                    if i == 0 {
                        assert(u[j] == rest[j - 1]);
                        lemma_config_put_keys(s.drop_first(), k, v, j - 1);
                        if rest[j - 1].0 == k {
                            assert(c(k, s[0].0) is Gt);
                            assert(c(s[0].0, k) is Lt);
                        } else {
                            let m = choose|m: int|
                                0 <= m < s.drop_first().len() && s.drop_first()[m].0 == rest[j
                                    - 1].0;
                            assert(s[m + 1].0 == rest[j - 1].0);
                            assert(key_cmp(s[0].0, s[m + 1].0) is Lt);
                        }
                    } else {
                        assert(u[i] == rest[i - 1] && u[j] == rest[j - 1]);
                    }
                }
            },
        }
    }
}

/// The sorting fold keeps keys strictly ordered and parser-shaped.
proof fn lemma_config_fold_keys(entries: Seq<(Seq<char>, JsonData)>, acc: Seq<(KeyData, JsonData)>)
    requires
        spec_config_fold(entries, acc) is Ok,
        config_keys_sorted(acc),
        forall|i: int| 0 <= i < acc.len() ==> key_data_parsed((#[trigger] acc[i]).0),
    ensures
        config_keys_sorted(spec_config_fold(entries, acc)->Ok_0),
        forall|i: int|
            0 <= i < spec_config_fold(entries, acc)->Ok_0.len() ==> key_data_parsed(
                (#[trigger] spec_config_fold(entries, acc)->Ok_0[i]).0,
            ),
    decreases entries.len(),
{
    if entries.len() == 0 {
    } else {
        let kd = spec_parse_key(entries[0].0)->Ok_0;
        lemma_parse_key_parsed(entries[0].0);
        let acc2 = spec_config_put(acc, kd, entries[0].1);
        lemma_config_put_sorted(acc, kd, entries[0].1);
        assert forall|i: int| 0 <= i < acc2.len() implies key_data_parsed(
            (#[trigger] acc2[i]).0,
        ) by {
            lemma_config_put_keys(acc, kd, entries[0].1, i);
            if acc2[i].0 != kd {
                let m = choose|m: int| 0 <= m < acc.len() && acc[m].0 == acc2[i].0;
                assert(key_data_parsed(acc[m].0));
            }
        }
        lemma_config_fold_keys(entries.drop_first(), acc2);
    }
}

/// Every value after a put is the new one or one already present.
proof fn lemma_config_put_vals(s: Seq<(KeyData, JsonData)>, k: KeyData, v: JsonData, i: int)
    requires
        0 <= i < spec_config_put(s, k, v).len(),
    ensures
        spec_config_put(s, k, v)[i].1 == v || exists|m: int|
            0 <= m < s.len() && s[m].1 == spec_config_put(s, k, v)[i].1,
    decreases s.len(),
{
    let u = spec_config_put(s, k, v);
    if s.len() == 0 {
    } else {
        match key_cmp(k, s[0].0) {
            Cmp::Lt => {
                if i > 0 {
                    assert(s[i - 1].1 == u[i].1);
                }
            },
            Cmp::Eq => {
                if i > 0 {
                    assert(s[i].1 == u[i].1);
                }
            },
            Cmp::Gt => {
                if i == 0 {
                    assert(s[0].1 == u[0].1);
                } else {
                    lemma_config_put_vals(s.drop_first(), k, v, i - 1);
                    let rest = spec_config_put(s.drop_first(), k, v);
                    assert(u[i] == rest[i - 1]);
                    if rest[i - 1].1 != v {
                        let m = choose|m: int|
                            0 <= m < s.drop_first().len() && s.drop_first()[m].1 == rest[i - 1].1;
                        assert(s[m + 1].1 == rest[i - 1].1);
                    }
                }
            },
        }
    }
}

/// Every value the sorting fold yields came from an input binding or
/// from the accumulator.
proof fn lemma_config_fold_vals(entries: Seq<(Seq<char>, JsonData)>, acc: Seq<(KeyData, JsonData)>)
    requires
        spec_config_fold(entries, acc) is Ok,
    ensures
        forall|i: int|
            0 <= i < spec_config_fold(entries, acc)->Ok_0.len() ==> ((exists|m: int|
                0 <= m < entries.len() && (#[trigger] spec_config_fold(entries, acc)->Ok_0[i]).1
                    == entries[m].1) || (exists|m: int|
                0 <= m < acc.len() && spec_config_fold(entries, acc)->Ok_0[i].1 == acc[m].1)),
    decreases entries.len(),
{
    if entries.len() == 0 {
    } else {
        let kd = spec_parse_key(entries[0].0)->Ok_0;
        let acc2 = spec_config_put(acc, kd, entries[0].1);
        lemma_config_fold_vals(entries.drop_first(), acc2);
        let out = spec_config_fold(entries, acc)->Ok_0;
        assert forall|i: int| 0 <= i < out.len() implies ((exists|m: int|
            0 <= m < entries.len() && (#[trigger] out[i]).1 == entries[m].1) || (exists|m: int|
            0 <= m < acc.len() && out[i].1 == acc[m].1)) by {
            if exists|m: int| 0 <= m < acc2.len() && out[i].1 == acc2[m].1 {
                let m = choose|m: int| 0 <= m < acc2.len() && out[i].1 == acc2[m].1;
                lemma_config_put_vals(acc, kd, entries[0].1, m);
                if acc2[m].1 == entries[0].1 {
                    assert(out[i].1 == entries[0].1);
                } else {
                    let q = choose|q: int| 0 <= q < acc.len() && acc[q].1 == acc2[m].1;
                    assert(out[i].1 == acc[q].1);
                }
            } else {
                let m = choose|m: int|
                    0 <= m < entries.drop_first().len() && out[i].1 == entries.drop_first()[m].1;
                assert(out[i].1 == entries[m + 1].1);
            }
        }
    }
}

/// A sorted configuration stays within the depth of its input and keeps
/// its number texts canonical: every emitted value is an input value.
pub proof fn lemma_canonicalize_config_safe(d: JsonData)
    requires
        spec_canonicalize_config(d) is Ok,
        json_depth(d) <= 127,
        nums_canonical(d),
    ensures
        json_depth(spec_canonicalize_config(d)->Ok_0) <= 127,
        nums_canonical(spec_canonicalize_config(d)->Ok_0),
{
    let e_in = d->Obj_0;
    let sorted = spec_config_fold(e_in, Seq::empty())->Ok_0;
    let out = spec_config_entries_out(sorted);
    lemma_config_fold_vals(e_in, Seq::empty());
    lemma_entries_depth(e_in);
    assert(entries_depth(e_in) <= 126);
    assert forall|i: int| 0 <= i < out.len() implies json_depth((#[trigger] out[i]).1) <= 126
        && nums_canonical(out[i].1) by {
        assert(out[i].1 == sorted[i].1);
        let m = choose|m: int| 0 <= m < e_in.len() && sorted[i].1 == e_in[m].1;
        assert(json_depth(e_in[m].1) <= entries_depth(e_in));
        assert(nums_canonical(e_in[m].1));
    }
    lemma_entries_depth_bound(out, 126);
}

/// The emitted keys of a sorted configuration are pairwise distinct —
/// distinct canonical keys never format alike — and every emitted value
/// keeps the unique keys it came in with.
pub proof fn lemma_canonicalize_config_keys(d: JsonData)
    requires
        spec_canonicalize_config(d) is Ok,
        keys_unique(d),
    ensures
        keys_unique(spec_canonicalize_config(d)->Ok_0),
{
    let e_in = d->Obj_0;
    let sorted = spec_config_fold(e_in, Seq::empty())->Ok_0;
    let out = spec_config_entries_out(sorted);
    lemma_config_fold_keys(e_in, Seq::empty());
    lemma_config_fold_vals(e_in, Seq::empty());
    lemma_key_cmp_lawful();
    let c = |a: KeyData, b: KeyData| key_cmp(a, b);
    assert forall|i: int, j: int| 0 <= i < j < out.len() implies (#[trigger] out[i]).0 != (
    #[trigger] out[j]).0 by {
        if out[i].0 == out[j].0 {
            assert(out[i].0 == spec_format_key(sorted[i].0));
            assert(out[j].0 == spec_format_key(sorted[j].0));
            lemma_format_key_injective(sorted[i].0, sorted[j].0);
            assert(key_cmp(sorted[i].0, sorted[j].0) is Lt);
            lemma_cmp_refl(c, sorted[i].0);
            assert(c(sorted[i].0, sorted[j].0) == key_cmp(sorted[i].0, sorted[j].0));
        }
    }
    assert forall|i: int| 0 <= i < out.len() implies keys_unique((#[trigger] out[i]).1) by {
        assert(out[i].1 == sorted[i].1);
        let m = choose|m: int| 0 <= m < e_in.len() && sorted[i].1 == e_in[m].1;
        assert(keys_unique(e_in[m].1));
    }
}

/// A sorted configuration: pairs of key and value, in key order.
pub struct ConfigDoc {
    pub entries: Vec<(Key, JsonVal)>,
}

impl ConfigDoc {
    pub open spec fn model(self) -> Seq<(KeyData, JsonData)> {
        self.entries@.map_values(|kv: (Key, JsonVal)| (kv.0.model(), kv.1.model()))
    }

    pub open spec fn wf(self) -> bool {
        forall|i: int| 0 <= i < self.entries@.len() ==> (#[trigger] self.entries@[i]).0.wf()
    }

    /// Place one binding, exactly as `spec_config_put` says.
    #[verifier::loop_isolation(false)]
    pub fn put(&mut self, k: Key, v: JsonVal)
        requires
            old(self).wf(),
            k.wf(),
        ensures
            final(self).wf(),
            final(self).model() =~= spec_config_put(old(self).model(), k.model(), v.model()),
    {
        let ghost s0 = self.model();
        let ghost km = k.model();
        let ghost vm = v.model();
        let n = self.entries.len();
        let mut i: usize = 0;
        while i < n
            invariant
                0 <= i <= n,
                n == self.entries@.len(),
                self.entries@ == old(self).entries@,
                forall|m: int| 0 <= m < i ==> key_cmp(km, (#[trigger] s0[m]).0) is Gt,
            decreases n - i,
        {
            let c = k.cmp_with(&self.entries[i].0);
            proof {
                assert(s0[i as int] == (self.entries@[i as int].0.model(), self.entries@[i as int]
                    .1.model()));
            }
            match c {
                Cmp::Lt => {
                    self.entries.insert(i, (k, v));
                    proof {
                        lemma_config_put_skip(s0, km, vm, i as int);
                        assert(s0.skip(i as int)[0] == s0[i as int]);
                        assert(spec_config_put(s0.skip(i as int), km, vm) =~= seq![(km, vm)]
                            + s0.skip(i as int));
                        assert(self.model() =~= s0.take(i as int) + (seq![(km, vm)] + s0.skip(
                            i as int,
                        )));
                    }
                    return ;
                },
                Cmp::Eq => {
                    self.entries.set(i, (k, v));
                    proof {
                        lemma_config_put_skip(s0, km, vm, i as int);
                        assert(s0.skip(i as int)[0] == s0[i as int]);
                        assert(spec_config_put(s0.skip(i as int), km, vm) =~= seq![(km, vm)]
                            + s0.skip(i as int).drop_first());
                        assert forall|q: int| 0 <= q < self.model().len() implies self.model()[q]
                            == (s0.take(i as int) + (seq![(km, vm)] + s0.skip(
                            i as int,
                        ).drop_first()))[q] by {
                            if q != i {
                                assert(self.entries@[q] == old(self).entries@[q]);
                            } else {
                                assert(self.entries@[q].0.model() == km);
                                assert(self.entries@[q].1.model() == vm);
                            }
                        }
                        assert(self.model() =~= s0.take(i as int) + (seq![(km, vm)] + s0.skip(
                            i as int,
                        ).drop_first()));
                    }
                    return ;
                },
                Cmp::Gt => {
                    i += 1;
                },
            }
        }
        self.entries.push((k, v));
        proof {
            lemma_config_put_skip(s0, km, vm, n as int);
            assert(s0.take(n as int) =~= s0);
            assert(spec_config_put(s0.skip(n as int), km, vm) =~= seq![(km, vm)]);
            assert(self.model() =~= s0 + seq![(km, vm)]);
        }
    }
}

/// Canonicalize a configuration object: parse each key, place each
/// binding in key order, and write the keys back in canonical text.
#[verifier::loop_isolation(false)]
pub fn canonicalize_config(v: JsonVal) -> (r: Result<JsonVal, String>)
    ensures
        match r {
            Result::Ok(out) => spec_canonicalize_config(v.model()) == Result::<
                JsonData,
                Seq<char>,
            >::Ok(out.model()),
            Result::Err(e) => spec_canonicalize_config(v.model()) == Result::<
                JsonData,
                Seq<char>,
            >::Err(e@),
        },
{
    let ghost dm = v.model();
    let ghost goal = spec_canonicalize_config(dm);
    let mut entries = match v {
        JsonVal::Obj(entries) => entries,
        _ => {
            return Result::Err(String::from_str("invalid type: expected a map"));
        },
    };
    let mut doc = ConfigDoc { entries: Vec::new() };
    proof {
        assert(doc.model() =~= Seq::<(KeyData, JsonData)>::empty());
    }
    while entries.len() > 0
        invariant
            doc.wf(),
            goal == (match spec_config_fold(entry_models(entries@), doc.model()) {
                Result::Err(e) => Result::<JsonData, Seq<char>>::Err(e),
                Result::Ok(s) => Result::<JsonData, Seq<char>>::Ok(
                    JsonData::Obj(spec_config_entries_out(s)),
                ),
            }),
        decreases entries@.len(),
    {
        let ghost before = entries@;
        proof {
            lemma_entry_models_drop(before);
        }
        let kv = entries.remove(0);
        let ghost km = kv.0@;
        let ghost vm = kv.1.model();
        proof {
            assert(entries@ =~= before.drop_first());
            assert(entry_models(entries@) =~= entry_models(before).drop_first());
            assert(entry_models(before)[0] == (km, vm));
        }
        let (kt, val) = kv;
        match Key::parse(kt.as_str()) {
            Result::Ok(key) => {
                doc.put(key, val);
            },
            Result::Err(e) => {
                return Result::Err(e);
            },
        }
    }
    let ghost sorted = doc.model();
    let mut out: Vec<(String, JsonVal)> = Vec::new();
    let mut rest = doc.entries;
    proof {
        assert(entry_models(out@) =~= Seq::<(Seq<char>, JsonData)>::empty());
        assert(spec_config_entries_out(sorted).take(0) =~= Seq::<(Seq<char>, JsonData)>::empty());
    }
    let ghost total = sorted.len();
    while rest.len() > 0
        invariant
            rest@.len() <= total,
            forall|m: int|
                0 <= m < rest@.len() ==> (#[trigger] rest@[m].0).model() == sorted[m + total
                    - rest@.len()].0 && rest@[m].1.model() == sorted[m + total - rest@.len()].1,
            entry_models(out@) =~= spec_config_entries_out(sorted).take(total - rest@.len()),
        decreases rest@.len(),
    {
        let ghost rbefore = rest@;
        let ghost obefore = out@;
        let kv = rest.remove(0);
        proof {
            assert(rest@ =~= rbefore.drop_first());
        }
        let (key, val) = kv;
        let ghost kmm = key.model();
        let ghost vmm = val.model();
        let ktext = key.format();
        out.push((ktext, val));
        proof {
            assert(out@.drop_last() =~= obefore);
            assert(entry_models(out@) == entry_models(out@.drop_last()).push(
                (out@.last().0@, out@.last().1.model()),
            ));
            assert(out@.last().0@ == spec_format_key(kmm));
            assert(kmm == sorted[total - rbefore.len()].0);
            assert(vmm == sorted[total - rbefore.len()].1);
            assert(spec_config_entries_out(sorted)[total - rbefore.len()] == (
                spec_format_key(kmm),
                vmm,
            ));
            assert(entry_models(out@) =~= spec_config_entries_out(sorted).take(
                total - rest@.len(),
            ));
        }
    }
    proof {
        assert(spec_config_entries_out(sorted).take(total as int) =~= spec_config_entries_out(
            sorted,
        ));
        assert(entry_models(entries@).len() == 0);
    }
    Result::Ok(JsonVal::Obj(out))
}

/// What canonicalizing a configuration text yields, when the text is
/// JSON at all: exactly the sorted object's pretty text with one
/// trailing newline. The emitted keys never collide — distinct canonical
/// keys format to distinct texts — and values travel through untouched,
/// so the output is pinned for every accepted input, and it parses back
/// to the sorted tree.
pub fn canonicalize_config_text(s: &str) -> (r: Result<String, String>)
    ensures
        match r {
            Result::Ok(out) => {
                &&& spec_json_of_text(s@) is Some
                &&& spec_canonicalize_config(spec_json_of_text(s@)->Some_0) is Ok
                &&& out@ == spec_pretty_text(
                    spec_canonicalize_config(spec_json_of_text(s@)->Some_0)->Ok_0,
                ) + "\n"@
                &&& spec_json_of_text(out@) == Option::Some(
                    spec_canonicalize_config(spec_json_of_text(s@)->Some_0)->Ok_0,
                )
            },
            Result::Err(e) => spec_json_of_text(s@) is None || spec_canonicalize_config(
                spec_json_of_text(s@)->Some_0,
            ) == Result::<JsonData, Seq<char>>::Err(e@),
        },
{
    let t = match json_parse(s) {
        Result::Ok(t) => t,
        Result::Err(e) => {
            return Result::Err(e);
        },
    };
    let ghost tm = t.model();
    let c = match canonicalize_config(t) {
        Result::Ok(c) => c,
        Result::Err(e) => {
            return Result::Err(e);
        },
    };
    proof {
        lemma_canonicalize_config_safe(tm);
        lemma_canonicalize_config_keys(tm);
    }
    let mut out = json_print(&c);
    out.append("\n");
    Result::Ok(out)
}

} // verus!
