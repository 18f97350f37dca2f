//! Ordered lists with deduplicated append: the model of the store's atomic
//! "append only the values not already present" script.
//!
//! A list keeps its members in order of first occurrence.  `put` appends, in
//! one atomic unit, exactly the given values that are not yet present;
//! `get_range` pages through a list.  The append semantics is pinned by the
//! spec function [`dedup_append`], and [`lemma_dedup_append_members`] /
//! [`lemma_dedup_append_nodup`] / [`lemma_dedup_append_keeps_prefix`] state
//! the laws the callers rely on: membership is exactly the union, duplicates
//! are never added, and what was in the list stays where it was.

use crate::kv::Table;
use vstd::prelude::*;

verus! {

/// No value occurs twice.
pub open spec fn nodup(s: Seq<Seq<char>>) -> bool {
    forall|i: int, j: int| 0 <= i < j < s.len() ==> s[i] != s[j]
}

/// `cur` extended by the values of `vs` not already present, keeping the
/// order of first occurrence.
pub open spec fn dedup_append(cur: Seq<Seq<char>>, vs: Seq<Seq<char>>) -> Seq<Seq<char>>
    decreases vs.len(),
{
    if vs.len() == 0 {
        cur
    } else if cur.contains(vs[0]) {
        dedup_append(cur, vs.drop_first())
    } else {
        dedup_append(cur.push(vs[0]), vs.drop_first())
    }
}

/// Deduplicated append adds a value exactly when it was in neither input.
pub proof fn lemma_dedup_append_members(cur: Seq<Seq<char>>, vs: Seq<Seq<char>>, x: Seq<char>)
    ensures
        dedup_append(cur, vs).contains(x) <==> cur.contains(x) || vs.contains(x),
    decreases vs.len(),
{
    if vs.len() > 0 {
        let cur1 = if cur.contains(vs[0]) {
            cur
        } else {
            cur.push(vs[0])
        };
        lemma_dedup_append_members(cur1, vs.drop_first(), x);
        assert(vs.contains(x) <==> (vs[0] == x || vs.drop_first().contains(x))) by {
            if vs.contains(x) {
                let i = choose|i: int| 0 <= i < vs.len() && vs[i] == x;
                if i > 0 {
                    assert(vs.drop_first()[i - 1] == x);
                }
            }
            if vs.drop_first().contains(x) {
                let i = choose|i: int| 0 <= i < vs.drop_first().len() && vs.drop_first()[i] == x;
                assert(vs[i + 1] == x);
            }
        }
        if !cur.contains(vs[0]) {
            assert(cur1.contains(x) <==> (cur.contains(x) || vs[0] == x)) by {
                if cur.contains(x) {
                    let i = choose|i: int| 0 <= i < cur.len() && cur[i] == x;
                    assert(cur1[i] == x);
                }
                assert(cur1[cur.len() as int] == vs[0]);
                if cur1.contains(x) {
                    let i = choose|i: int| 0 <= i < cur1.len() && cur1[i] == x;
                    if i < cur.len() {
                        assert(cur[i] == x);
                    }
                }
            }
        }
    }
}

/// Deduplicated append never introduces a duplicate.
pub proof fn lemma_dedup_append_nodup(cur: Seq<Seq<char>>, vs: Seq<Seq<char>>)
    requires
        nodup(cur),
    ensures
        nodup(dedup_append(cur, vs)),
    decreases vs.len(),
{
    if vs.len() > 0 {
        if cur.contains(vs[0]) {
            lemma_dedup_append_nodup(cur, vs.drop_first());
        } else {
            let cur1 = cur.push(vs[0]);
            assert(nodup(cur1)) by {
                assert forall|i: int, j: int| 0 <= i < j < cur1.len() implies cur1[i] != cur1[j] by {
                    if j == cur.len() {
                        assert(cur1[i] == cur[i]);
                        assert(!cur.contains(vs[0]));
                    }
                }
            }
            lemma_dedup_append_nodup(cur1, vs.drop_first());
        }
    }
}

/// Deduplicated append only appends: the existing members keep their
/// positions.
pub proof fn lemma_dedup_append_keeps_prefix(cur: Seq<Seq<char>>, vs: Seq<Seq<char>>)
    ensures
        dedup_append(cur, vs).len() >= cur.len(),
        forall|i: int| 0 <= i < cur.len() ==> #[trigger] dedup_append(cur, vs)[i] == cur[i],
    decreases vs.len(),
{
    if vs.len() > 0 {
        if cur.contains(vs[0]) {
            lemma_dedup_append_keeps_prefix(cur, vs.drop_first());
        } else {
            lemma_dedup_append_keeps_prefix(cur.push(vs[0]), vs.drop_first());
        }
    }
}

/// Appending one more value to the input extends the result at its end.
proof fn lemma_dedup_append_snoc(cur: Seq<Seq<char>>, vs: Seq<Seq<char>>, x: Seq<char>)
    ensures
        dedup_append(cur, vs.push(x)) == if dedup_append(cur, vs).contains(x) {
            dedup_append(cur, vs)
        } else {
            dedup_append(cur, vs).push(x)
        },
    decreases vs.len(),
{
    if vs.len() == 0 {
        let vs1 = vs.push(x);
        assert(vs1[0] == x);
        assert(vs1.drop_first() =~= vs);
        assert(dedup_append(cur, vs) == cur);
        if cur.contains(x) {
            assert(dedup_append(cur, vs1) == dedup_append(cur, vs1.drop_first()));
        } else {
            assert(dedup_append(cur, vs1) == dedup_append(cur.push(x), vs1.drop_first()));
            assert(dedup_append(cur.push(x), vs) == cur.push(x));
        }
    } else {
        assert(vs.push(x)[0] == vs[0]);
        assert(vs.push(x).drop_first() =~= vs.drop_first().push(x));
        if cur.contains(vs[0]) {
            lemma_dedup_append_snoc(cur, vs.drop_first(), x);
        } else {
            lemma_dedup_append_snoc(cur.push(vs[0]), vs.drop_first(), x);
        }
    }
}

/// One `put` transition on a list's contents, exactly as the operation's
/// contract states it.  The remote store runs the append script atomically,
/// so a race of `k` concurrent callers is a chain of `k` such transitions.
pub open spec fn put_step(pre: Seq<Seq<char>>, post: Seq<Seq<char>>, vs: Seq<Seq<char>>) -> bool {
    post == dedup_append(pre, vs)
}

/// A serialized race of `put` callers over one list: `states[0]` is the
/// list before the race and each adjacent pair is one atomic append of the
/// same values.
pub open spec fn put_chain(states: Seq<Seq<Seq<char>>>, vs: Seq<Seq<char>>) -> bool
    decreases states.len(),
{
    &&& states.len() >= 1
    &&& (states.len() == 1 || (put_step(states[0], states[1], vs) && put_chain(
        states.drop_first(),
        vs,
    )))
}

/// Atomic first-write on the list append: for every concurrency degree
/// `k >= 1`, a chain of `k` serialized appends of the same values leaves the
/// list exactly as a single append leaves it — every appended value present,
/// never twice, and every pre-existing member untouched in place.
pub proof fn lemma_put_race(states: Seq<Seq<Seq<char>>>, vs: Seq<Seq<char>>)
    requires
        put_chain(states, vs),
        states.len() >= 2,
    ensures
        states.last() == dedup_append(states[0], vs),
        forall|x: Seq<char>|
            #[trigger] states.last().contains(x) <==> (states[0].contains(x) || vs.contains(x)),
        nodup(states[0]) ==> nodup(states.last()),
        forall|i: int| 0 <= i < states[0].len() ==> #[trigger] states.last()[i] == states[0][i],
    decreases states.len(),
{
    if states.len() == 2 {
        assert(states.last() == states[1]);
    } else {
        let rest = states.drop_first();
        assert(rest[0] == states[1]);
        lemma_put_race(rest, vs);
        assert(states.last() == rest.last());
        crate::replay::lemma_dedup_append_replay(states[0], vs);
    }
    assert forall|x: Seq<char>| #[trigger] states.last().contains(x) <==> (states[0].contains(x)
        || vs.contains(x)) by {
        lemma_dedup_append_members(states[0], vs, x);
    }
    if nodup(states[0]) {
        lemma_dedup_append_nodup(states[0], vs);
    }
    lemma_dedup_append_keeps_prefix(states[0], vs);
}

/// The views of the strings in `v`.
pub open spec fn views_of(v: Seq<String>) -> Seq<Seq<char>> {
    v.map_values(|x: String| x@)
}

/// The ordered-list families of the cache index store.
pub struct ListStore {
    table: Table<Vec<String>>,
}

impl ListStore {
    /// The members of the list under `k`; an absent list reads as empty.
    pub closed spec fn contents(self, k: Seq<char>) -> Seq<Seq<char>> {
        match self.table.spec_get(k) {
            Some(v) => views_of(v@),
            None => Seq::empty(),
        }
    }

    /// Every list is duplicate-free, and the keyed table is well formed.
    pub closed spec fn wf(self) -> bool {
        &&& self.table.wf()
        &&& forall|k: Seq<char>| nodup(#[trigger] self.contents(k))
    }

    pub fn new() -> (r: Self)
        ensures
            r.wf(),
            forall|k: Seq<char>| #[trigger] r.contents(k) == Seq::<Seq<char>>::empty(),
    {
        let r = ListStore { table: Table::new() };
        proof {
            assert forall|k: Seq<char>| #[trigger] r.contents(k) == Seq::<Seq<char>>::empty() by {
                assert(!r.table.contains_key(k));
            }
        }
        r
    }

    /// Atomically append the values of `values` that are not yet in the list
    /// under `key`, in order of first occurrence; returns how many were
    /// added.  An empty input leaves the store untouched.
    pub fn put(&mut self, key: &str, values: &Vec<String>) -> (added: usize)
        requires
            old(self).wf(),
        ensures
            final(self).wf(),
            final(self).contents(key@) == dedup_append(
                old(self).contents(key@),
                views_of(values@),
            ),
            added == final(self).contents(key@).len() - old(self).contents(key@).len(),
            forall|q: Seq<char>|
                q != key@ ==> #[trigger] final(self).contents(q) == old(self).contents(q),
    {
        let ghost cur0 = self.contents(key@);
        if values.len() == 0 {
            proof {
                assert(views_of(values@) =~= Seq::<Seq<char>>::empty());
            }
            return 0;
        }
        let mut list: Vec<String> = match self.table.take(key) {
            Some(v) => v,
            None => Vec::new(),
        };
        proof {
            assert(views_of(list@) =~= cur0);
        }
        let mut added: usize = 0;
        let ghost base_len = list@.len();
        let mut i: usize = 0;
        while i < values.len()
            invariant
                i <= values@.len(),
                views_of(list@) == dedup_append(cur0, views_of(values@).subrange(0, i as int)),
                nodup(views_of(list@)),
                added == list@.len() - base_len,
                base_len == cur0.len(),
                list@.len() <= base_len + i,
            decreases values@.len() - i,
        {
            let ghost pre = views_of(list@);
            let v = &values[i];
            let present = contains_string(&list, v.as_str());
            if !present {
                list.push(v.clone());
            }
            proof {
                lemma_dedup_append_snoc(cur0, views_of(values@).subrange(0, i as int), v@);
                assert(views_of(values@).subrange(0, i as int).push(v@) =~= views_of(
                    values@,
                ).subrange(0, i + 1 as int));
                if !present {
                    assert(views_of(list@) =~= pre.push(v@));
                    assert(nodup(views_of(list@))) by {
                        let s = views_of(list@);
                        assert forall|a: int, b: int| 0 <= a < b < s.len() implies s[a] != s[b] by {
                            if b == s.len() - 1 {
                                assert(s[a] == pre[a]);
                                assert(!pre.contains(v@));
                            }
                        }
                    }
                }
                assert(views_of(values@).subrange(0, values@.len() as int) =~= views_of(values@));
            }
            if !present {
                added = added + 1;
            }
            i = i + 1;
        }
        proof {
            assert(views_of(values@).subrange(0, values@.len() as int) =~= views_of(values@));
        }
        let ghost snap = *self;
        self.table.insert(key, list);
        proof {
            lemma_dedup_append_keeps_prefix(cur0, views_of(values@));
            assert forall|q: Seq<char>| q != key@ implies #[trigger] self.contents(q)
                == old(self).contents(q) by {
                assert(self.table.spec_get(q) == snap.table.spec_get(q));
                assert(snap.table.spec_get(q) == old(self).table.spec_get(q));
            }
            assert forall|q: Seq<char>| true implies nodup(#[trigger] self.contents(q)) by {
                if q != key@ {
                    assert(self.contents(q) == old(self).contents(q));
                    assert(nodup(old(self).contents(q)));
                }
            }
        }
        added
    }

    /// Page through the list under `key`: drop `skip` members, return at
    /// most `limit`.  `None` when the resulting range is empty; an absent
    /// and an empty list read the same.
    pub fn get_range(&self, key: &str, skip: Option<usize>, limit: Option<usize>) -> (r: Option<
        Vec<String>,
    >)
        requires
            self.wf(),
        ensures
            ({
                let all = self.contents(key@);
                let s = if skip is Some {
                    skip->0 as int
                } else {
                    0
                };
                let wanted = if s > all.len() {
                    Seq::<Seq<char>>::empty()
                } else if limit is Some && s + limit->0 < all.len() {
                    all.subrange(s, s + limit->0)
                } else {
                    all.subrange(s, all.len() as int)
                };
                match r {
                    Some(v) => views_of(v@) == wanted && v@.len() > 0,
                    None => wanted.len() == 0,
                }
            }),
    {
        let ghost all = self.contents(key@);
        let list = match self.table.get(key) {
            Some(v) => v,
            None => {
                return None;
            },
        };
        let s: usize = match skip {
            Some(n) => n,
            None => 0,
        };
        if s >= list.len() {
            return None;
        }
        let end: usize = match limit {
            Some(l) => {
                if l < list.len() - s {
                    s + l
                } else {
                    list.len()
                }
            },
            None => list.len(),
        };
        if end == s {
            proof {
                assert(all.subrange(s as int, s as int) =~= Seq::<Seq<char>>::empty());
            }
            return None;
        }
        let mut out: Vec<String> = Vec::new();
        let mut i: usize = s;
        while i < end
            invariant
                s <= i <= end <= list@.len(),
                all == views_of(list@),
                views_of(out@) == all.subrange(s as int, i as int),
            decreases end - i,
        {
            let ghost pre = views_of(out@);
            out.push(list[i].clone());
            proof {
                assert(views_of(out@) =~= pre.push(list@[i as int]@));
                assert(all.subrange(s as int, i + 1 as int) =~= all.subrange(
                    s as int,
                    i as int,
                ).push(all[i as int]));
            }
            i = i + 1;
        }
        Some(out)
    }
}

/// A copy of a string list, member for member.
pub fn clone_strings(v: &Vec<String>) -> (r: Vec<String>)
    ensures
        views_of(r@) == views_of(v@),
{
    let mut out: Vec<String> = Vec::new();
    let mut i: usize = 0;
    proof {
        assert(views_of(out@) =~= views_of(v@).take(0));
    }
    while i < v.len()
        invariant
            i <= v@.len(),
            views_of(out@) == views_of(v@).take(i as int),
        decreases v@.len() - i,
    {
        let ghost pre = views_of(out@);
        out.push(v[i].clone());
        proof {
            assert(views_of(out@) =~= pre.push(views_of(v@)[i as int]));
            assert(views_of(v@).take(i + 1 as int) =~= views_of(v@).take(i as int).push(
                views_of(v@)[i as int],
            ));
        }
        i = i + 1;
    }
    proof {
        assert(views_of(v@).take(v@.len() as int) =~= views_of(v@));
    }
    out
}

/// Whether `v` holds a string equal to `x`.
pub fn contains_string(v: &Vec<String>, x: &str) -> (r: bool)
    ensures
        r == views_of(v@).contains(x@),
{
    let mut i: usize = 0;
    while i < v.len()
        invariant
            i <= v@.len(),
            forall|j: int| 0 <= j < i ==> views_of(v@)[j] != x@,
        decreases v@.len() - i,
    {
        if crate::text::str_eq(v[i].as_str(), x) {
            assert(views_of(v@)[i as int] == x@);
            return true;
        }
        i = i + 1;
    }
    false
}

} // verus!
