//! Score-ranked sets: the model of the store's sorted-set families
//! (engagement ranking, hot-tag counts, tag-score tracking).
//!
//! A score set holds each member once, ranked by a `u64` score, highest
//! first; among equal scores, the member ranked longer ago comes first.
//! `put_score`, `incr_score` and `decr_score` state the new ranking exactly,
//! as `insert_ranked` of `remove_entry` of the old one; `range` and
//! `range_many` page through rankings, with a per-key existence flag, the
//! model of one pipelined round trip over many keys.

use crate::kv::Table;
use vstd::prelude::*;

verus! {

/// The views of the `(member, score)` pairs in `v`.
pub open spec fn entry_views(v: Seq<(String, u64)>) -> Seq<(Seq<char>, u64)> {
    v.map_values(|p: (String, u64)| (p.0@, p.1))
}

/// The score ranked under member `m`, scanning from the front.
pub open spec fn score_in(s: Seq<(Seq<char>, u64)>, m: Seq<char>) -> Option<u64>
    decreases s.len(),
{
    if s.len() == 0 {
        None
    } else if s[0].0 == m {
        Some(s[0].1)
    } else {
        score_in(s.drop_first(), m)
    }
}

/// `s` with the first entry for member `m` dropped.
pub open spec fn remove_entry(s: Seq<(Seq<char>, u64)>, m: Seq<char>) -> Seq<(Seq<char>, u64)>
    decreases s.len(),
{
    if s.len() == 0 {
        s
    } else if s[0].0 == m {
        s.drop_first()
    } else {
        seq![s[0]] + remove_entry(s.drop_first(), m)
    }
}

/// `s` with `(m, sc)` inserted before the first entry ranked below `sc`.
pub open spec fn insert_ranked(s: Seq<(Seq<char>, u64)>, m: Seq<char>, sc: u64) -> Seq<
    (Seq<char>, u64),
>
    decreases s.len(),
{
    if s.len() == 0 {
        seq![(m, sc)]
    } else if s[0].1 < sc {
        seq![(m, sc)] + s
    } else {
        seq![s[0]] + insert_ranked(s.drop_first(), m, sc)
    }
}

/// Scores never increase along the ranking.
pub open spec fn sorted_desc(s: Seq<(Seq<char>, u64)>) -> bool {
    forall|i: int, j: int| 0 <= i < j < s.len() ==> s[i].1 >= s[j].1
}

/// Each member is ranked at most once.
pub open spec fn members_unique(s: Seq<(Seq<char>, u64)>) -> bool {
    forall|i: int, j: int| #![trigger s[i].0, s[j].0] 0 <= i < j < s.len() ==> s[i].0 != s[j].0
}

proof fn lemma_score_in_first_match(s: Seq<(Seq<char>, u64)>, m: Seq<char>, i: int)
    requires
        0 <= i < s.len(),
        s[i].0 == m,
        forall|j: int| 0 <= j < i ==> s[j].0 != m,
    ensures
        score_in(s, m) == Some(s[i].1),
    decreases i,
{
    if i > 0 {
        assert(s.drop_first()[i - 1] == s[i]);
        assert(forall|j: int| 0 <= j < i - 1 ==> #[trigger] s.drop_first()[j] == s[j + 1]);
        lemma_score_in_first_match(s.drop_first(), m, i - 1);
    }
}

proof fn lemma_score_in_absent(s: Seq<(Seq<char>, u64)>, m: Seq<char>)
    requires
        forall|j: int| 0 <= j < s.len() ==> (#[trigger] s[j]).0 != m,
    ensures
        score_in(s, m) is None,
    decreases s.len(),
{
    if s.len() > 0 {
        assert(forall|j: int|
            0 <= j < s.drop_first().len() ==> (#[trigger] s.drop_first()[j]) == s[j + 1]);
        lemma_score_in_absent(s.drop_first(), m);
    }
}

proof fn lemma_remove_entry_at(s: Seq<(Seq<char>, u64)>, m: Seq<char>, i: int)
    requires
        0 <= i < s.len(),
        s[i].0 == m,
        forall|j: int| 0 <= j < i ==> s[j].0 != m,
    ensures
        remove_entry(s, m) == s.remove(i),
    decreases i,
{
    if i == 0 {
        assert(s.drop_first() =~= s.remove(0));
    } else {
        assert(s.drop_first()[i - 1] == s[i]);
        assert(forall|j: int| 0 <= j < i - 1 ==> #[trigger] s.drop_first()[j] == s[j + 1]);
        lemma_remove_entry_at(s.drop_first(), m, i - 1);
        assert(seq![s[0]] + s.drop_first().remove(i - 1) =~= s.remove(i));
    }
}

proof fn lemma_remove_entry_absent(s: Seq<(Seq<char>, u64)>, m: Seq<char>)
    requires
        forall|j: int| 0 <= j < s.len() ==> (#[trigger] s[j]).0 != m,
    ensures
        remove_entry(s, m) == s,
    decreases s.len(),
{
    if s.len() > 0 {
        assert(forall|j: int|
            0 <= j < s.drop_first().len() ==> (#[trigger] s.drop_first()[j]) == s[j + 1]);
        lemma_remove_entry_absent(s.drop_first(), m);
        assert(seq![s[0]] + s.drop_first() =~= s);
    }
}

proof fn lemma_insert_ranked_at(s: Seq<(Seq<char>, u64)>, m: Seq<char>, sc: u64, p: int)
    requires
        0 <= p <= s.len(),
        forall|j: int| 0 <= j < p ==> s[j].1 >= sc,
        p < s.len() ==> s[p].1 < sc,
    ensures
        insert_ranked(s, m, sc) == s.insert(p, (m, sc)),
    decreases p,
{
    if s.len() == 0 {
        assert(s.insert(0, (m, sc)) =~= seq![(m, sc)]);
    } else if p == 0 {
        assert(s[0].1 < sc);
        assert(seq![(m, sc)] + s =~= s.insert(0, (m, sc)));
    } else {
        assert(s[0].1 >= sc);
        assert(forall|j: int| 0 <= j < p - 1 ==> #[trigger] s.drop_first()[j] == s[j + 1]);
        if p < s.len() {
            assert(s.drop_first()[p - 1] == s[p]);
        }
        lemma_insert_ranked_at(s.drop_first(), m, sc, p - 1);
        assert(seq![s[0]] + s.drop_first().insert(p - 1, (m, sc)) =~= s.insert(p, (m, sc)));
    }
}

/// Under a duplicate-free ranking, what every member's score reads after
/// one upsert: the upserted member reads the new score, every other member
/// reads what it read before.
pub proof fn lemma_score_in_after_put(s: Seq<(Seq<char>, u64)>, m: Seq<char>, sc: u64, q: Seq<char>)
    requires
        members_unique(s),
    ensures
        score_in(insert_ranked(remove_entry(s, m), m, sc), q) == if q == m {
            Some(sc)
        } else {
            score_in(s, q)
        },
{
    lemma_remove_entry_free(s, m);
    if q != m {
        lemma_score_in_remove_other(s, m, q);
    }
    lemma_score_in_insert_fresh(remove_entry(s, m), m, sc, q);
}

/// Removing one member's entry leaves no entry of that member.
proof fn lemma_remove_entry_free(s: Seq<(Seq<char>, u64)>, m: Seq<char>)
    requires
        members_unique(s),
    ensures
        forall|j: int|
            0 <= j < remove_entry(s, m).len() ==> (#[trigger] remove_entry(s, m)[j]).0 != m,
        members_unique(remove_entry(s, m)),
    decreases s.len(),
{
    if s.len() > 0 {
        assert(forall|j: int|
            0 <= j < s.drop_first().len() ==> (#[trigger] s.drop_first()[j]) == s[j + 1]);
        lemma_remove_entry_free(s.drop_first(), m);
        if s[0].0 != m {
            let t = seq![s[0]] + remove_entry(s.drop_first(), m);
            assert(remove_entry(s, m) == t);
            assert forall|j: int| 0 <= j < t.len() implies (#[trigger] t[j]).0 != m by {
                if j > 0 {
                    assert(t[j] == remove_entry(s.drop_first(), m)[j - 1]);
                }
            }
            assert forall|a: int, b: int|
                #![trigger t[a].0, t[b].0]
                0 <= a < b < t.len() implies t[a].0 != t[b].0 by {
                let tr = remove_entry(s.drop_first(), m);
                if a == 0 {
                    assert(t[b] == tr[b - 1]);
                    lemma_remove_entry_member_origin(s.drop_first(), m, b - 1);
                } else {
                    assert(t[a] == tr[a - 1]);
                    assert(t[b] == tr[b - 1]);
                }
            }
        }
    }
}

/// Every entry the removal keeps was already in the ranking.
proof fn lemma_remove_entry_member_origin(s: Seq<(Seq<char>, u64)>, m: Seq<char>, j: int)
    requires
        0 <= j < remove_entry(s, m).len(),
    ensures
        exists|i: int| 0 <= i < s.len() && s[i] == remove_entry(s, m)[j],
    decreases s.len(),
{
    if s.len() > 0 {
        if s[0].0 == m {
            assert(remove_entry(s, m) == s.drop_first());
            assert(s[j + 1] == remove_entry(s, m)[j]);
        } else {
            let t = seq![s[0]] + remove_entry(s.drop_first(), m);
            assert(remove_entry(s, m) == t);
            if j == 0 {
                assert(s[0] == t[0]);
            } else {
                assert(t[j] == remove_entry(s.drop_first(), m)[j - 1]);
                lemma_remove_entry_member_origin(s.drop_first(), m, j - 1);
                let i = choose|i: int|
                    0 <= i < s.drop_first().len() && s.drop_first()[i] == remove_entry(
                        s.drop_first(),
                        m,
                    )[j - 1];
                assert(s[i + 1] == t[j]);
            }
        }
    }
}

/// Removing one member's entry does not change what other members read.
proof fn lemma_score_in_remove_other(s: Seq<(Seq<char>, u64)>, m: Seq<char>, q: Seq<char>)
    requires
        members_unique(s),
        q != m,
    ensures
        score_in(remove_entry(s, m), q) == score_in(s, q),
    decreases s.len(),
{
    if s.len() > 0 {
        assert(forall|j: int|
            0 <= j < s.drop_first().len() ==> (#[trigger] s.drop_first()[j]) == s[j + 1]);
        if s[0].0 == m {
            assert(remove_entry(s, m) == s.drop_first());
        } else {
            lemma_score_in_remove_other(s.drop_first(), m, q);
            let t = seq![s[0]] + remove_entry(s.drop_first(), m);
            assert(remove_entry(s, m) == t);
            assert(t[0] == s[0]);
            assert(t.drop_first() =~= remove_entry(s.drop_first(), m));
        }
    }
}

/// Inserting a fresh member at its rank gives it the new score and changes
/// no other member's.
proof fn lemma_score_in_insert_fresh(t: Seq<(Seq<char>, u64)>, m: Seq<char>, sc: u64, q: Seq<char>)
    requires
        forall|j: int| 0 <= j < t.len() ==> (#[trigger] t[j]).0 != m,
    ensures
        score_in(insert_ranked(t, m, sc), q) == if q == m {
            Some(sc)
        } else {
            score_in(t, q)
        },
    decreases t.len(),
{
    let ins = insert_ranked(t, m, sc);
    if t.len() == 0 {
        assert(ins == seq![(m, sc)]);
        assert(ins[0] == (m, sc));
        if q != m {
            assert(ins.drop_first() =~= t);
        }
    } else if t[0].1 < sc {
        assert(ins == seq![(m, sc)] + t);
        assert(ins[0] == (m, sc));
        if q != m {
            assert(ins.drop_first() =~= t);
        }
    } else {
        assert(forall|j: int|
            0 <= j < t.drop_first().len() ==> (#[trigger] t.drop_first()[j]) == t[j + 1]);
        lemma_score_in_insert_fresh(t.drop_first(), m, sc, q);
        assert(ins == seq![t[0]] + insert_ranked(t.drop_first(), m, sc));
        assert(ins[0] == t[0]);
        assert(ins.drop_first() =~= insert_ranked(t.drop_first(), m, sc));
        assert(t[0].0 != m);
    }
}

/// The `skip`/`limit` page of a ranking, by score order.
pub open spec fn range_window(
    entries: Seq<(Seq<char>, u64)>,
    skip: usize,
    limit: usize,
    descending: bool,
) -> Seq<(Seq<char>, u64)> {
    let ordered = if descending {
        entries
    } else {
        entries.reverse()
    };
    let e = if skip > ordered.len() {
        skip as int
    } else if skip + limit < ordered.len() {
        skip + limit
    } else {
        ordered.len() as int
    };
    if skip >= ordered.len() {
        Seq::empty()
    } else {
        ordered.subrange(skip as int, e)
    }
}

/// Whether one paged answer for one key is exactly the specified one.
pub open spec fn range_answer(
    sets: ScoreSets,
    key: Seq<char>,
    skip: usize,
    limit: usize,
    descending: bool,
    r: Option<Vec<(String, u64)>>,
) -> bool {
    match r {
        Some(v) => sets.ranking(key) is Some && entry_views(v@) == range_window(
            sets.entries(key),
            skip,
            limit,
            descending,
        ),
        None => sets.ranking(key) is None,
    }
}

/// The score-ranked set families of the cache index store.
pub struct ScoreSets {
    table: Table<Vec<(String, u64)>>,
}

impl ScoreSets {
    /// The ranking under `k`, highest score first; `None` when the key does
    /// not exist.
    pub closed spec fn ranking(self, k: Seq<char>) -> Option<Seq<(Seq<char>, u64)>> {
        match self.table.spec_get(k) {
            Some(v) => Some(entry_views(v@)),
            None => None,
        }
    }

    /// The ranking under `k`, reading an absent key as empty.
    pub open spec fn entries(self, k: Seq<char>) -> Seq<(Seq<char>, u64)> {
        match self.ranking(k) {
            Some(s) => s,
            None => Seq::empty(),
        }
    }

    /// The score of `m` under `k`, if ranked.
    pub open spec fn spec_score(self, k: Seq<char>, m: Seq<char>) -> Option<u64> {
        score_in(self.entries(k), m)
    }

    /// Every ranking is duplicate-free and sorted by descending score.
    pub closed spec fn wf(self) -> bool {
        &&& self.table.wf()
        &&& forall|k: Seq<char>| sorted_desc(#[trigger] self.entries(k))
        &&& forall|k: Seq<char>| members_unique(#[trigger] self.entries(k))
    }

    /// A well-formed store's rankings are duplicate-free and sorted.
    pub proof fn lemma_wf_entries(self, k: Seq<char>)
        requires
            self.wf(),
        ensures
            members_unique(self.entries(k)),
            sorted_desc(self.entries(k)),
    {
    }

    pub fn new() -> (r: Self)
        ensures
            r.wf(),
            forall|k: Seq<char>| #[trigger] r.ranking(k) is None,
    {
        let r = ScoreSets { table: Table::new() };
        proof {
            assert forall|k: Seq<char>| #[trigger] r.ranking(k) is None by {
                assert(!r.table.contains_key(k));
            }
        }
        r
    }

    /// The first position of member `m` in `v`, if ranked.
    fn find_member(v: &Vec<(String, u64)>, m: &str) -> (r: Option<usize>)
        ensures
            match r {
                Some(i) => i < v@.len() && entry_views(v@)[i as int].0 == m@ && forall|j: int|
                    0 <= j < i ==> entry_views(v@)[j].0 != m@,
                None => forall|j: int| 0 <= j < v@.len() ==> entry_views(v@)[j].0 != m@,
            },
    {
        let mut i: usize = 0;
        while i < v.len()
            invariant
                i <= v@.len(),
                forall|j: int| 0 <= j < i ==> entry_views(v@)[j].0 != m@,
            decreases v@.len() - i,
        {
            if crate::text::str_eq(v[i].0.as_str(), m) {
                assert(entry_views(v@)[i as int].0 == m@);
                return Some(i);
            }
            i = i + 1;
        }
        None
    }

    /// The score ranked for `member` under `key`, if any.
    pub fn get_score(&self, key: &str, member: &str) -> (r: Option<u64>)
        ensures
            r == self.spec_score(key@, member@),
    {
        match self.table.get(key) {
            Some(v) => {
                match Self::find_member(v, member) {
                    Some(i) => {
                        proof {
                            lemma_score_in_first_match(entry_views(v@), member@, i as int);
                        }
                        Some(v[i].1)
                    },
                    None => {
                        proof {
                            lemma_score_in_absent(entry_views(v@), member@);
                        }
                        None
                    },
                }
            },
            None => None,
        }
    }

    /// Whether the ranking under `key` exists at all.
    pub fn exists_key(&self, key: &str) -> (r: bool)
        ensures
            r == (self.ranking(key@) is Some),
    {
        self.table.contains(key)
    }

    /// Rank `member` under `key` with score `score`, retiring any previous
    /// rank it held.
    pub fn put_score(&mut self, key: &str, member: &str, score: u64)
        requires
            old(self).wf(),
        ensures
            final(self).wf(),
            final(self).ranking(key@) == Some(
                insert_ranked(remove_entry(old(self).entries(key@), member@), member@, score),
            ),
            forall|q: Seq<char>|
                q != key@ ==> #[trigger] final(self).ranking(q) == old(self).ranking(q),
    {
        let ghost cur0 = self.entries(key@);
        let mut v: Vec<(String, u64)> = match self.table.take(key) {
            Some(v) => v,
            None => Vec::new(),
        };
        proof {
            assert(entry_views(v@) =~= cur0);
        }
        match Self::find_member(&v, member) {
            Some(i) => {
                proof {
                    lemma_remove_entry_at(cur0, member@, i as int);
                }
                v.remove(i);
                proof {
                    assert(entry_views(v@) =~= cur0.remove(i as int));
                }
            },
            None => {
                proof {
                    lemma_remove_entry_absent(cur0, member@);
                }
            },
        }
        let ghost removed = entry_views(v@);
        proof {
            assert(sorted_desc(removed) && members_unique(removed) && !exists|j: int|
                0 <= j < removed.len() && removed[j].0 == member@) by {
                lemma_remove_shape(cur0, member@);
            }
        }
        let mut p: usize = 0;
        while p < v.len() && v[p].1 >= score
            invariant
                p <= v@.len(),
                entry_views(v@) == removed,
                forall|j: int| 0 <= j < p ==> removed[j].1 >= score,
            decreases v@.len() - p,
        {
            assert(removed[p as int].1 == v@[p as int].1);
            p = p + 1;
        }
        proof {
            if p < v@.len() {
                assert(removed[p as int].1 < score);
            }
            lemma_insert_ranked_at(removed, member@, score, p as int);
        }
        v.insert(p, (member.to_owned(), score));
        proof {
            assert(entry_views(v@) =~= removed.insert(p as int, (member@, score)));
        }
        let ghost snap = *self;
        self.table.insert(key, v);
        proof {
            assert forall|q: Seq<char>| q != key@ implies #[trigger] self.ranking(q) == old(
                self,
            ).ranking(q) by {
                assert(self.table.spec_get(q) == snap.table.spec_get(q));
                assert(snap.table.spec_get(q) == old(self).table.spec_get(q));
            }
            let fin = insert_ranked(removed, member@, score);
            assert(sorted_desc(fin) && members_unique(fin)) by {
                lemma_insert_shape(removed, member@, score, p as int);
            }
            assert forall|q: Seq<char>| true implies sorted_desc(#[trigger] self.entries(q))
                && members_unique(self.entries(q)) by {
                if q != key@ {
                    assert(self.entries(q) == old(self).entries(q));
                }
            }
        }
    }

    /// Raise `member`'s score under `key` by one (from zero if unranked),
    /// saturating at the integer bound; returns the new score.
    pub fn incr_score(&mut self, key: &str, member: &str) -> (new: u64)
        requires
            old(self).wf(),
        ensures
            final(self).wf(),
            new == match old(self).spec_score(key@, member@) {
                Some(s) => if s == u64::MAX {
                    s
                } else {
                    (s + 1) as u64
                },
                None => 1u64,
            },
            final(self).ranking(key@) == Some(
                insert_ranked(remove_entry(old(self).entries(key@), member@), member@, new),
            ),
            forall|q: Seq<char>|
                q != key@ ==> #[trigger] final(self).ranking(q) == old(self).ranking(q),
    {
        let new = match self.get_score(key, member) {
            Some(s) => {
                if s == u64::MAX {
                    s
                } else {
                    s + 1
                }
            },
            None => 1,
        };
        self.put_score(key, member, new);
        new
    }

    /// Lower `member`'s score under `key` by one; returns the new score, or
    /// `None` when the member was not ranked.  A score of zero stays ranked
    /// until the caller retires the member.
    pub fn decr_score(&mut self, key: &str, member: &str) -> (new: Option<u64>)
        requires
            old(self).wf(),
        ensures
            final(self).wf(),
            new == match old(self).spec_score(key@, member@) {
                Some(s) => Some(if s == 0 {
                    0u64
                } else {
                    (s - 1) as u64
                }),
                None => None::<u64>,
            },
            match new {
                Some(n) => final(self).ranking(key@) == Some(
                    insert_ranked(remove_entry(old(self).entries(key@), member@), member@, n),
                ),
                None => final(self).ranking(key@) == old(self).ranking(key@),
            },
            forall|q: Seq<char>|
                q != key@ ==> #[trigger] final(self).ranking(q) == old(self).ranking(q),
    {
        match self.get_score(key, member) {
            Some(s) => {
                let n = if s == 0 {
                    0
                } else {
                    s - 1
                };
                self.put_score(key, member, n);
                Some(n)
            },
            None => None,
        }
    }

    /// Retire `member` from the ranking under `key`; returns whether it was
    /// ranked.
    pub fn remove_member(&mut self, key: &str, member: &str) -> (removed: bool)
        requires
            old(self).wf(),
        ensures
            final(self).wf(),
            removed == (old(self).spec_score(key@, member@) is Some),
            final(self).ranking(key@) == if old(self).ranking(key@) is Some {
                Some(remove_entry(old(self).entries(key@), member@))
            } else {
                None
            },
            forall|q: Seq<char>|
                q != key@ ==> #[trigger] final(self).ranking(q) == old(self).ranking(q),
    {
        let ghost cur0 = self.entries(key@);
        let mut v: Vec<(String, u64)> = match self.table.take(key) {
            Some(v) => v,
            None => {
                proof {
                    lemma_score_in_absent(cur0, member@);
                    assert forall|q: Seq<char>| true implies #[trigger] self.ranking(q) == old(
                        self,
                    ).ranking(q) by {
                        if q != key@ {
                            assert(self.table.spec_get(q) == old(self).table.spec_get(q));
                        } else {
                            assert(self.table.spec_get(q) is None);
                            assert(old(self).table.spec_get(q) is None);
                        }
                    }
                    assert forall|q: Seq<char>| true implies sorted_desc(#[trigger] self.entries(q))
                        && members_unique(self.entries(q)) by {
                        assert(self.entries(q) == old(self).entries(q));
                    }
                }
                return false;
            },
        };
        proof {
            assert(entry_views(v@) =~= cur0);
        }
        let removed = match Self::find_member(&v, member) {
            Some(i) => {
                proof {
                    lemma_remove_entry_at(cur0, member@, i as int);
                    lemma_score_in_first_match(cur0, member@, i as int);
                }
                v.remove(i);
                proof {
                    assert(entry_views(v@) =~= cur0.remove(i as int));
                }
                true
            },
            None => {
                proof {
                    lemma_remove_entry_absent(cur0, member@);
                    lemma_score_in_absent(cur0, member@);
                }
                false
            },
        };
        let ghost snap = *self;
        self.table.insert(key, v);
        proof {
            assert forall|q: Seq<char>| q != key@ implies #[trigger] self.ranking(q) == old(
                self,
            ).ranking(q) by {
                assert(self.table.spec_get(q) == snap.table.spec_get(q));
                assert(snap.table.spec_get(q) == old(self).table.spec_get(q));
            }
            assert(sorted_desc(self.entries(key@)) && members_unique(self.entries(key@))) by {
                lemma_remove_shape(cur0, member@);
            }
            assert forall|q: Seq<char>| true implies sorted_desc(#[trigger] self.entries(q))
                && members_unique(self.entries(q)) by {
                if q != key@ {
                    assert(self.entries(q) == old(self).entries(q));
                }
            }
        }
        removed
    }

    /// The whole ranking under `key`, highest scores first; empty when the
    /// key does not exist.
    pub fn all_entries(&self, key: &str) -> (r: Vec<(String, u64)>)
        ensures
            entry_views(r@) == self.entries(key@),
    {
        let ghost es = self.entries(key@);
        let v = match self.table.get(key) {
            Some(v) => v,
            None => {
                let out: Vec<(String, u64)> = Vec::new();
                proof {
                    assert(entry_views(out@) =~= es);
                }
                return out;
            },
        };
        let mut out: Vec<(String, u64)> = Vec::new();
        let mut i: usize = 0;
        proof {
            assert(entry_views(out@) =~= es.take(0));
        }
        while i < v.len()
            invariant
                i <= v@.len(),
                es == entry_views(v@),
                entry_views(out@) == es.take(i as int),
            decreases v@.len() - i,
        {
            let ghost pre = entry_views(out@);
            out.push((v[i].0.clone(), v[i].1));
            proof {
                assert(entry_views(out@) =~= pre.push(es[i as int]));
                assert(es.take(i + 1 as int) =~= es.take(i as int).push(es[i as int]));
            }
            i = i + 1;
        }
        proof {
            assert(es.take(v@.len() as int) =~= es);
        }
        out
    }

    /// Page through the ranking under `key`: highest scores first when
    /// `descending`, lowest first otherwise; `None` when the key does not
    /// exist, so a missing ranking is told apart from an empty page.
    pub fn range(&self, key: &str, skip: usize, limit: usize, descending: bool) -> (r: Option<
        Vec<(String, u64)>,
    >)
        ensures
            match r {
                Some(v) => self.ranking(key@) is Some && entry_views(v@) == range_window(
                    self.entries(key@),
                    skip,
                    limit,
                    descending,
                ),
                None => self.ranking(key@) is None,
            },
    {
        let v = match self.table.get(key) {
            Some(v) => v,
            None => {
                return None;
            },
        };
        let ghost ordered = if descending {
            self.entries(key@)
        } else {
            self.entries(key@).reverse()
        };
        let n = v.len();
        let mut out: Vec<(String, u64)> = Vec::new();
        if skip >= n {
            proof {
                assert(entry_views(out@) =~= Seq::<(Seq<char>, u64)>::empty());
            }
            return Some(out);
        }
        let end: usize = if limit < n - skip {
            skip + limit
        } else {
            n
        };
        let mut i: usize = skip;
        while i < end
            invariant
                skip <= i <= end <= n,
                n == v@.len(),
                ordered == if descending {
                    entry_views(v@)
                } else {
                    entry_views(v@).reverse()
                },
                entry_views(out@) == ordered.subrange(skip as int, i as int),
            decreases end - i,
        {
            let ghost pre = entry_views(out@);
            let idx = if descending {
                i
            } else {
                n - 1 - i
            };
            out.push((v[idx].0.clone(), v[idx].1));
            proof {
                assert(entry_views(out@) =~= pre.push(entry_views(v@)[idx as int]));
                assert(ordered[i as int] == entry_views(v@)[idx as int]);
                assert(ordered.subrange(skip as int, i + 1 as int) =~= ordered.subrange(
                    skip as int,
                    i as int,
                ).push(ordered[i as int]));
            }
            i = i + 1;
        }
        Some(out)
    }

    /// One pipelined pass over many keys: for each, the existence flag and
    /// the paged ranking, aligned with the input.
    pub fn range_many(&self, keys: &Vec<String>, skip: usize, limit: usize, descending: bool) -> (r:
        Vec<Option<Vec<(String, u64)>>>)
        ensures
            r@.len() == keys@.len(),
            forall|i: int|
                0 <= i < keys@.len() ==> #[trigger] range_answer(
                    *self,
                    keys@[i]@,
                    skip,
                    limit,
                    descending,
                    r@[i],
                ),
    {
        let mut out: Vec<Option<Vec<(String, u64)>>> = Vec::new();
        let mut i: usize = 0;
        while i < keys.len()
            invariant
                i <= keys@.len(),
                out@.len() == i,
                forall|j: int|
                    0 <= j < i ==> #[trigger] range_answer(
                        *self,
                        keys@[j]@,
                        skip,
                        limit,
                        descending,
                        out@[j],
                    ),
            decreases keys@.len() - i,
        {
            let r = self.range(keys[i].as_str(), skip, limit, descending);
            out.push(r);
            i = i + 1;
        }
        out
    }
}

/// Removing a member keeps the ranking sorted, duplicate-free, and free of
/// that member.
proof fn lemma_remove_shape(s: Seq<(Seq<char>, u64)>, m: Seq<char>)
    requires
        sorted_desc(s),
        members_unique(s),
    ensures
        sorted_desc(remove_entry(s, m)),
        members_unique(remove_entry(s, m)),
        forall|j: int| 0 <= j < remove_entry(s, m).len() ==> (#[trigger] remove_entry(s, m)[j]).0 != m,
{
    if exists|i: int| 0 <= i < s.len() && (#[trigger] s[i]).0 == m {
        let i = choose|i: int| 0 <= i < s.len() && (#[trigger] s[i]).0 == m;
        assert(forall|j: int| 0 <= j < i ==> s[j].0 != m);
        lemma_remove_entry_at(s, m, i);
        let t = s.remove(i);
        assert forall|j: int| 0 <= j < t.len() implies (#[trigger] t[j]).0 != m by {
            if j < i {
                assert(t[j] == s[j]);
            } else {
                assert(t[j] == s[j + 1]);
            }
        }
        assert forall|a: int, b: int| 0 <= a < b < t.len() implies t[a].1 >= t[b].1 && (#[trigger] t[a]).0
            != (#[trigger] t[b]).0 by {
            let sa = if a < i {
                a
            } else {
                a + 1
            };
            let sb = if b < i {
                b
            } else {
                b + 1
            };
            assert(t[a] == s[sa]);
            assert(t[b] == s[sb]);
        }
    } else {
        assert(forall|j: int| 0 <= j < s.len() ==> (#[trigger] s[j]).0 != m);
        lemma_remove_entry_absent(s, m);
    }
}

/// Inserting a fresh member at its rank keeps the ranking sorted and
/// duplicate-free.
proof fn lemma_insert_shape(s: Seq<(Seq<char>, u64)>, m: Seq<char>, sc: u64, p: int)
    requires
        sorted_desc(s),
        members_unique(s),
        forall|j: int| 0 <= j < s.len() ==> (#[trigger] s[j]).0 != m,
        0 <= p <= s.len(),
        forall|j: int| 0 <= j < p ==> s[j].1 >= sc,
        p < s.len() ==> s[p].1 < sc,
    ensures
        sorted_desc(insert_ranked(s, m, sc)),
        members_unique(insert_ranked(s, m, sc)),
{
    lemma_insert_ranked_at(s, m, sc, p);
    let t = s.insert(p, (m, sc));
    assert forall|a: int, b: int| 0 <= a < b < t.len() implies t[a].1 >= t[b].1 && (#[trigger] t[a]).0
        != (#[trigger] t[b]).0 by {
        if a == p {
            assert(t[a] == (m, sc));
            assert(t[b] == s[b - 1]);
            assert(s[b - 1].1 <= sc) by {
                if p < s.len() {
                    assert(s[p].1 < sc);
                    if b - 1 > p {
                        assert(s[p].1 >= s[b - 1].1);
                    }
                }
            }
        } else if b == p {
            assert(t[a] == s[a]);
            assert(t[b] == (m, sc));
        } else {
            let sa = if a < p {
                a
            } else {
                a - 1
            };
            let sb = if b < p {
                b
            } else {
                b - 1
            };
            assert(t[a] == s[sa]);
            assert(t[b] == s[sb]);
            if sa == sb {
                assert(false);
            }
        }
    }
}

} // verus!
