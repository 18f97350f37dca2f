//! Small verified helpers over `&str` and `String`.
//!
//! Keys, identifiers and feed lines are all text; these helpers give the
//! string comparisons the rest of the crate needs, each with an exact
//! contract over the character-sequence views.

use vstd::prelude::*;

verus! {

/// The lowercase folding of a character sequence: what `str::to_lowercase`
/// returns, a function of the characters alone.
pub uninterp spec fn lower_of(s: Seq<char>) -> Seq<char>;

/// Relies on `str::to_lowercase` of std: the result depends on the
/// characters of `s` alone, so search indexing and search queries that fold
/// through this function agree with each other; and folding an
/// already-folded string changes nothing, the Unicode case-stability
/// property of the lowercase mapping.
#[verifier::external_body]
pub fn fold_lowercase(s: &str) -> (r: String)
    ensures
        r@ == lower_of(s@),
        lower_of(r@) == r@,
{
    s.to_lowercase()
}

/// `p` is a prefix of `s`.
pub open spec fn is_prefix_of(p: Seq<char>, s: Seq<char>) -> bool {
    p.len() <= s.len() && s.subrange(0, p.len() as int) == p
}

/// Character-for-character equality of two string slices.
pub fn str_eq(a: &str, b: &str) -> (r: bool)
    ensures
        r == (a@ == b@),
{
    let sa: String = a.to_owned();
    let sb: String = b.to_owned();
    sa == sb
}

/// Whether `s` starts with the prefix `p`.
pub fn str_starts_with(s: &str, p: &str) -> (r: bool)
    ensures
        r == is_prefix_of(p@, s@),
{
    let pl = p.unicode_len();
    let sl = s.unicode_len();
    if pl > sl {
        false
    } else {
        let head = s.substring_char(0, pl);
        str_eq(head, p)
    }
}

/// The characters of `s` after dropping the first `n`; the caller must know
/// that `s` is at least `n` characters long.
pub fn str_drop_prefix(s: &str, n: usize) -> (r: String)
    requires
        n <= s@.len(),
    ensures
        r@ == s@.subrange(n as int, s@.len() as int),
{
    let sl = s.unicode_len();
    let tail = s.substring_char(n, sl);
    tail.to_owned()
}

/// Strict lexicographic order on character sequences, by code point; a
/// proper prefix comes first.
pub open spec fn lex_lt(a: Seq<char>, b: Seq<char>) -> bool
    decreases a.len(),
{
    if b.len() == 0 {
        false
    } else if a.len() == 0 {
        true
    } else if a[0] != b[0] {
        a[0] < b[0]
    } else {
        lex_lt(a.drop_first(), b.drop_first())
    }
}

/// The order is asymmetric.
pub proof fn lemma_lex_asym(a: Seq<char>, b: Seq<char>)
    requires
        lex_lt(a, b),
    ensures
        !lex_lt(b, a),
    decreases a.len(),
{
    if b.len() > 0 && a.len() > 0 && a[0] == b[0] {
        lemma_lex_asym(a.drop_first(), b.drop_first());
    }
}

/// Any two sequences are ordered or equal.
pub proof fn lemma_lex_trichotomy(a: Seq<char>, b: Seq<char>)
    ensures
        lex_lt(a, b) || lex_lt(b, a) || a == b,
    decreases a.len(),
{
    if a.len() == 0 && b.len() == 0 {
        assert(a =~= b);
    } else if a.len() > 0 && b.len() > 0 && a[0] == b[0] {
        lemma_lex_trichotomy(a.drop_first(), b.drop_first());
        if !lex_lt(a, b) && !lex_lt(b, a) {
            assert(a.drop_first() == b.drop_first());
            assert(a =~= b) by {
                assert(a.len() == b.len());
                assert(forall|i: int|
                    1 <= i < a.len() ==> #[trigger] a[i] == a.drop_first()[i - 1]);
                assert(forall|i: int|
                    1 <= i < b.len() ==> #[trigger] b[i] == b.drop_first()[i - 1]);
            }
        }
    }
}

/// The order is transitive.
pub proof fn lemma_lex_trans(a: Seq<char>, b: Seq<char>, c: Seq<char>)
    requires
        lex_lt(a, b),
        lex_lt(b, c),
    ensures
        lex_lt(a, c),
    decreases a.len(),
{
    if a.len() == 0 {
        assert(c.len() > 0);
    } else {
        assert(b.len() > 0 && c.len() > 0);
        if a[0] == b[0] && b[0] == c[0] {
            lemma_lex_trans(a.drop_first(), b.drop_first(), c.drop_first());
        }
    }
}

/// Compare two string slices lexicographically.
pub fn str_lex_lt(a: &str, b: &str) -> (r: bool)
    ensures
        r == lex_lt(a@, b@),
    decreases b@.len(),
{
    let bl = b.unicode_len();
    if bl == 0 {
        return false;
    }
    let al = a.unicode_len();
    if al == 0 {
        return true;
    }
    let ca = a.get_char(0);
    let cb = b.get_char(0);
    if ca != cb {
        return ca < cb;
    }
    let a1 = a.substring_char(1, al);
    let b1 = b.substring_char(1, bl);
    proof {
        assert(a1@ =~= a@.drop_first());
        assert(b1@ =~= b@.drop_first());
    }
    str_lex_lt(a1, b1)
}

/// `s` with `x` inserted before the first member ordered after it.
pub open spec fn lex_insert(s: Seq<Seq<char>>, x: Seq<char>) -> Seq<Seq<char>>
    decreases s.len(),
{
    if s.len() == 0 {
        seq![x]
    } else if lex_lt(x, s[0]) {
        seq![x] + s
    } else {
        seq![s[0]] + lex_insert(s.drop_first(), x)
    }
}

/// `ms` rearranged into lexicographic order, by insertion.
pub open spec fn lex_sort(ms: Seq<Seq<char>>) -> Seq<Seq<char>>
    decreases ms.len(),
{
    if ms.len() == 0 {
        ms
    } else {
        lex_insert(lex_sort(ms.drop_last()), ms.last())
    }
}

/// No later member is ordered before an earlier one.
pub open spec fn lex_sorted(s: Seq<Seq<char>>) -> bool {
    forall|i: int, j: int| 0 <= i < j < s.len() ==> !lex_lt(#[trigger] s[j], #[trigger] s[i])
}

/// Inserting at the scanned position is `lex_insert`.
pub proof fn lemma_lex_insert_at(s: Seq<Seq<char>>, x: Seq<char>, p: int)
    requires
        0 <= p <= s.len(),
        forall|j: int| 0 <= j < p ==> !lex_lt(x, #[trigger] s[j]),
        p < s.len() ==> lex_lt(x, s[p]),
    ensures
        lex_insert(s, x) == s.insert(p, x),
    decreases p,
{
    if s.len() == 0 {
        assert(s.insert(0, x) =~= seq![x]);
    } else if p == 0 {
        assert(lex_lt(x, s[0]));
        assert(seq![x] + s =~= s.insert(0, x));
    } else {
        assert(!lex_lt(x, s[0]));
        assert(forall|j: int| 0 <= j < p - 1 ==> #[trigger] s.drop_first()[j] == s[j + 1]);
        if p < s.len() {
            assert(s.drop_first()[p - 1] == s[p]);
        }
        lemma_lex_insert_at(s.drop_first(), x, p - 1);
        assert(seq![s[0]] + s.drop_first().insert(p - 1, x) =~= s.insert(p, x));
    }
}

/// Insertion keeps the order and adds exactly the new member.
pub proof fn lemma_lex_insert_props(s: Seq<Seq<char>>, x: Seq<char>)
    requires
        lex_sorted(s),
    ensures
        lex_sorted(lex_insert(s, x)),
        forall|y: Seq<char>| #[trigger] lex_insert(s, x).contains(y) <==> (s.contains(y) || y == x),
        lex_insert(s, x).len() == s.len() + 1,
    decreases s.len(),
{
    let t = lex_insert(s, x);
    if s.len() == 0 {
        assert(t =~= seq![x]);
        assert forall|y: Seq<char>| #[trigger] t.contains(y) <==> (s.contains(y) || y == x) by {
            assert(t[0] == x);
        }
    } else if lex_lt(x, s[0]) {
        assert(t == seq![x] + s);
        assert forall|a: int, b: int|
            0 <= a < b < t.len() implies !lex_lt(#[trigger] t[b], #[trigger] t[a]) by {
            if a == 0 {
                assert(t[b] == s[b - 1]);
                if lex_lt(s[b - 1], x) {
                    lemma_lex_trans(s[b - 1], x, s[0]);
                    if b > 1 {
                        lemma_lex_asym(s[b - 1], s[0]);
                    } else {
                        lemma_lex_asym(s[0], s[0]);
                    }
                }
            } else {
                assert(t[a] == s[a - 1]);
                assert(t[b] == s[b - 1]);
            }
        }
        assert forall|y: Seq<char>| #[trigger] t.contains(y) <==> (s.contains(y) || y == x) by {
            assert(t[0] == x);
            if s.contains(y) {
                let i = choose|i: int| 0 <= i < s.len() && s[i] == y;
                assert(t[i + 1] == y);
            }
            if t.contains(y) && y != x {
                let i = choose|i: int| 0 <= i < t.len() && t[i] == y;
                assert(i != 0);
                assert(s[i - 1] == y);
            }
        }
    } else {
        assert(lex_sorted(s.drop_first())) by {
            assert(forall|j: int|
                0 <= j < s.drop_first().len() ==> #[trigger] s.drop_first()[j] == s[j + 1]);
        }
        lemma_lex_insert_props(s.drop_first(), x);
        let tr = lex_insert(s.drop_first(), x);
        assert(t == seq![s[0]] + tr);
        assert forall|a: int, b: int|
            0 <= a < b < t.len() implies !lex_lt(#[trigger] t[b], #[trigger] t[a]) by {
            if a == 0 {
                assert(t[b] == tr[b - 1]);
                assert(tr.contains(tr[b - 1]));
                if s.drop_first().contains(tr[b - 1]) {
                    let i = choose|i: int|
                        0 <= i < s.drop_first().len() && s.drop_first()[i] == tr[b - 1];
                    assert(s[i + 1] == tr[b - 1]);
                    assert(!lex_lt(s[i + 1], s[0]));
                } else {
                    assert(tr[b - 1] == x);
                    lemma_lex_trichotomy(x, s[0]);
                    if x == s[0] {
                        lemma_lex_asym_refl(s[0]);
                    }
                }
            } else {
                assert(t[a] == tr[a - 1]);
                assert(t[b] == tr[b - 1]);
            }
        }
        assert forall|y: Seq<char>| #[trigger] t.contains(y) <==> (s.contains(y) || y == x) by {
            assert(t[0] == s[0]);
            if t.contains(y) {
                let i = choose|i: int| 0 <= i < t.len() && t[i] == y;
                if i > 0 {
                    assert(tr[i - 1] == y);
                    assert(tr.contains(y));
                    if s.drop_first().contains(y) {
                        let w = choose|w: int|
                            0 <= w < s.drop_first().len() && s.drop_first()[w] == y;
                        assert(s[w + 1] == y);
                    }
                }
            }
            if s.contains(y) || y == x {
                if y == x || s.drop_first().contains(y) {
                    assert(tr.contains(y)) by {
                        if s.contains(y) && y != x {
                            let i = choose|i: int| 0 <= i < s.len() && s[i] == y;
                            if i > 0 {
                                assert(s.drop_first()[i - 1] == y);
                            }
                        }
                    }
                    if tr.contains(y) {
                        let w = choose|w: int| 0 <= w < tr.len() && tr[w] == y;
                        assert(t[w + 1] == y);
                    }
                }
                if s.contains(y) && y != x && !s.drop_first().contains(y) {
                    let i = choose|i: int| 0 <= i < s.len() && s[i] == y;
                    if i > 0 {
                        assert(s.drop_first()[i - 1] == y);
                    } else {
                        assert(t[0] == y);
                    }
                }
            }
        }
    }
}

/// Nothing is ordered before itself.
proof fn lemma_lex_asym_refl(a: Seq<char>)
    ensures
        !lex_lt(a, a),
    decreases a.len(),
{
    if a.len() > 0 {
        lemma_lex_asym_refl(a.drop_first());
    }
}

/// The sorted rearrangement is ordered and holds exactly the input's
/// members.
pub proof fn lemma_lex_sort_props(ms: Seq<Seq<char>>)
    ensures
        lex_sorted(lex_sort(ms)),
        forall|y: Seq<char>| #[trigger] lex_sort(ms).contains(y) <==> ms.contains(y),
        lex_sort(ms).len() == ms.len(),
    decreases ms.len(),
{
    if ms.len() > 0 {
        lemma_lex_sort_props(ms.drop_last());
        lemma_lex_insert_props(lex_sort(ms.drop_last()), ms.last());
        assert forall|y: Seq<char>| #[trigger] lex_sort(ms).contains(y) <==> ms.contains(y) by {
            assert(ms.drop_last().contains(y) ==> ms.contains(y)) by {
                if ms.drop_last().contains(y) {
                    let i = choose|i: int| 0 <= i < ms.len() - 1 && ms.drop_last()[i] == y;
                    assert(ms[i] == y);
                }
            }
            if ms.contains(y) {
                let i = choose|i: int| 0 <= i < ms.len() && ms[i] == y;
                if i < ms.len() - 1 {
                    assert(ms.drop_last()[i] == y);
                }
            }
        }
    }
}

/// The first position of `c` in `s`, if any.
pub fn str_find(s: &str, c: char) -> (r: Option<usize>)
    ensures
        match r {
            Some(i) => i < s@.len() && s@[i as int] == c && forall|j: int|
                0 <= j < i ==> s@[j] != c,
            None => forall|j: int| 0 <= j < s@.len() ==> s@[j] != c,
        },
{
    let sl = s.unicode_len();
    let mut i: usize = 0;
    while i < sl
        invariant
            i <= sl,
            sl == s@.len(),
            forall|j: int| 0 <= j < i ==> s@[j] != c,
        decreases sl - i,
    {
        if s.get_char(i) == c {
            return Some(i);
        }
        i = i + 1;
    }
    None
}

} // verus!
