use vstd::prelude::*;
use vstd::string::StrSliceExecFns;
use crate::cmp3::{Cmp, lemma_cmp_refl};
use crate::seqcmp::{char_cmp, text_cmp, lemma_text_cmp_lawful, lemma_text_cmp_eq_is_eq,
    lemma_seq_cmp_skip_prefix};

verus! {

/// Index of the first occurrence of `c` in `s`, or -1 when absent.
pub open spec fn find_idx(s: Seq<char>, c: char) -> int
    decreases s.len(),
{
    if s.len() == 0 {
        -1
    } else if s[0] == c {
        0
    } else {
        let r = find_idx(s.drop_first(), c);
        if r < 0 {
            -1
        } else {
            r + 1
        }
    }
}

/// `find_idx` is exactly characterized by "first position holding `c`".
pub proof fn lemma_find_idx_is_first(s: Seq<char>, c: char, j: int)
    requires
        0 <= j < s.len(),
        s[j] == c,
        forall|k: int| 0 <= k < j ==> s[k] != c,
    ensures
        find_idx(s, c) == j,
    decreases j,
{
    if j > 0 {
        lemma_find_idx_is_first(s.drop_first(), c, j - 1);
    }
}

/// When `c` is absent, `find_idx` is -1.
pub proof fn lemma_find_idx_absent(s: Seq<char>, c: char)
    requires
        forall|k: int| 0 <= k < s.len() ==> s[k] != c,
    ensures
        find_idx(s, c) == -1,
    decreases s.len(),
{
    if s.len() > 0 {
        lemma_find_idx_absent(s.drop_first(), c);
    }
}

/// What a successful `find_idx` says of the sequence.
pub proof fn lemma_find_idx_props(s: Seq<char>, c: char)
    ensures
        find_idx(s, c) >= 0 ==> {
            &&& find_idx(s, c) < s.len()
            &&& s[find_idx(s, c)] == c
            &&& forall|k: int| 0 <= k < find_idx(s, c) ==> s[k] != c
        },
        find_idx(s, c) < 0 ==> forall|k: int| 0 <= k < s.len() ==> s[k] != c,
    decreases s.len(),
{
    if s.len() > 0 && s[0] != c {
        lemma_find_idx_props(s.drop_first(), c);
        let r = find_idx(s.drop_first(), c);
        if r >= 0 {
            assert(s[find_idx(s, c)] == s.drop_first()[r]);
            assert forall|k: int| 0 <= k < find_idx(s, c) implies s[k] != c by {
                if k > 0 {
                    assert(s.drop_first()[k - 1] == s[k]);
                }
            }
        } else {
            assert forall|k: int| 0 <= k < s.len() implies s[k] != c by {
                if k > 0 {
                    assert(s.drop_first()[k - 1] == s[k]);
                }
            }
        }
    }
}

/// First position of `target` in `s` at or after `from`.
pub fn find_char_from(s: &str, from: usize, target: char) -> (r: Option<usize>)
    requires
        from <= s@.len(),
    ensures
        match r {
            Option::Some(j) => find_idx(s@.skip(from as int), target) == j - from && from <= j
                < s@.len() && s@[j as int] == target,
            Option::None => find_idx(s@.skip(from as int), target) == -1,
        },
{
    let n = s.unicode_len();
    let mut i = from;
    while i < n
        invariant
            from <= i <= n,
            n == s@.len(),
            forall|k: int| from <= k < i ==> s@[k] != target,
        decreases n - i,
    {
        if s.get_char(i) == target {
            proof {
                assert forall|k: int| 0 <= k < i - from implies s@.skip(from as int)[k] != target by {
                    assert(s@.skip(from as int)[k] == s@[k + from]);
                }
                lemma_find_idx_is_first(s@.skip(from as int), target, i - from);
            }
            return Option::Some(i);
        }
        i += 1;
    }
    proof {
        assert forall|k: int| 0 <= k < s@.skip(from as int).len() implies s@.skip(from as int)[k]
            != target by {
            assert(s@.skip(from as int)[k] == s@[k + from]);
        }
        lemma_find_idx_absent(s@.skip(from as int), target);
    }
    Option::None
}

/// Split at the first occurrence of `c`: the part before it and the part
/// after it, or nothing when `c` is absent.
pub open spec fn split_first(s: Seq<char>, c: char) -> Option<(Seq<char>, Seq<char>)> {
    let i = find_idx(s, c);
    if i < 0 {
        Option::None
    } else {
        Option::Some((s.take(i), s.skip(i + 1)))
    }
}

/// A successful split yields a marker-free head, and re-joining inverts it.
pub proof fn lemma_split_first_props(s: Seq<char>, c: char)
    requires
        split_first(s, c) is Some,
    ensures
        forall|k: int|
            0 <= k < split_first(s, c)->Some_0.0.len() ==> split_first(s, c)->Some_0.0[k] != c,
        s =~= split_first(s, c)->Some_0.0 + seq![c] + split_first(s, c)->Some_0.1,
{
    lemma_find_idx_props(s, c);
}

/// Splitting `head + [c] + tail` at `c` recovers `head` and `tail` when the
/// head is free of the marker.
pub proof fn lemma_split_marker(head: Seq<char>, c: char, tail: Seq<char>)
    requires
        forall|k: int| 0 <= k < head.len() ==> head[k] != c,
    ensures
        split_first(head + seq![c] + tail, c) == Option::Some((head, tail)),
{
    let s = head + seq![c] + tail;
    assert(s[head.len() as int] == c);
    assert forall|k: int| 0 <= k < head.len() implies s[k] != c by {
        assert(s[k] == head[k]);
    }
    lemma_find_idx_is_first(s, c, head.len() as int);
    assert(s.take(head.len() as int) =~= head);
    assert(s.skip(head.len() as int + 1) =~= tail);
}

/// Three-way comparison of two strings, lexicographic by code point.
pub fn text_compare(a: &str, b: &str) -> (c: Cmp)
    ensures
        c == text_cmp(a@, b@),
{
    let alen = a.unicode_len();
    let blen = b.unicode_len();
    let mut i: usize = 0;
    while i < alen && i < blen
        invariant
            0 <= i <= alen,
            i <= blen,
            alen == a@.len(),
            blen == b@.len(),
            forall|k: int| 0 <= k < i ==> a@[k] == b@[k],
        decreases alen - i,
    {
        let ca = a.get_char(i);
        let cb = b.get_char(i);
        if ca != cb {
            proof {
                let ccf = |x: char, y: char| char_cmp(x, y);
                assert forall|k: int| 0 <= k < i implies #[trigger] ccf(a@[k], b@[k]) is Eq by {
                    assert(a@[k] == b@[k]);
                }
                lemma_seq_cmp_skip_prefix(ccf, a@, b@, i as int);
                assert(a@.skip(i as int)[0] == ca);
                assert(b@.skip(i as int)[0] == cb);
                assert(!(char_cmp(ca, cb) is Eq));
            }
            if (ca as u32) < (cb as u32) {
                return Cmp::Lt;
            } else {
                return Cmp::Gt;
            }
        }
        i += 1;
    }
    proof {
        let ccf = |x: char, y: char| char_cmp(x, y);
        assert forall|k: int| 0 <= k < i implies #[trigger] ccf(a@[k], b@[k]) is Eq by {
            assert(a@[k] == b@[k]);
        }
        lemma_seq_cmp_skip_prefix(ccf, a@, b@, i as int);
    }
    if alen == blen {
        Cmp::Eq
    } else if alen < blen {
        Cmp::Lt
    } else {
        Cmp::Gt
    }
}

/// Equality of two strings as character sequences.
pub fn text_eq(a: &str, b: &str) -> (r: bool)
    ensures
        r == (a@ == b@),
{
    let c = text_compare(a, b);
    proof {
        if c is Eq {
            lemma_text_cmp_eq_is_eq(a@, b@);
        }
        if a@ == b@ {
            lemma_text_cmp_lawful();
            lemma_cmp_refl(|x: Seq<char>, y: Seq<char>| text_cmp(x, y), a@);
        }
    }
    match c {
        Cmp::Eq => true,
        _ => false,
    }
}

} // verus!
