//! Membership sets: the model of the store's set families (who follows
//! whom, who muted whom).
//!
//! A set holds each member once, in insertion order.  `add` and
//! `remove_member` report whether they changed anything, which is what lets
//! the handlers keep derived counters exact under at-least-once delivery:
//! a replayed insertion reports "already present" and nothing is counted
//! twice.  `check_batch` answers many membership questions in one aligned
//! pass, the model of one pipelined round trip.

use crate::kv::Table;
use crate::lists::{nodup, views_of};
use vstd::prelude::*;

verus! {

/// `s` with the first occurrence of `x` dropped.
pub open spec fn remove_value(s: Seq<Seq<char>>, x: Seq<char>) -> Seq<Seq<char>>
    decreases s.len(),
{
    if s.len() == 0 {
        s
    } else if s[0] == x {
        s.drop_first()
    } else {
        seq![s[0]] + remove_value(s.drop_first(), x)
    }
}

/// Dropping an absent value changes nothing.
pub proof fn lemma_remove_value_absent(s: Seq<Seq<char>>, x: Seq<char>)
    requires
        !s.contains(x),
    ensures
        remove_value(s, x) == s,
    decreases s.len(),
{
    if s.len() > 0 {
        assert(s[0] != x);
        assert(!s.drop_first().contains(x)) by {
            if s.drop_first().contains(x) {
                let i = choose|i: int| 0 <= i < s.drop_first().len() && s.drop_first()[i] == x;
                assert(s[i + 1] == x);
            }
        }
        lemma_remove_value_absent(s.drop_first(), x);
        assert(seq![s[0]] + s.drop_first() =~= s);
    }
}

/// Dropping the occurrence at index `i` is `remove_value` when no earlier
/// position holds `x`.
pub proof fn lemma_remove_value_at(s: Seq<Seq<char>>, x: Seq<char>, i: int)
    requires
        0 <= i < s.len(),
        s[i] == x,
        forall|j: int| 0 <= j < i ==> s[j] != x,
    ensures
        remove_value(s, x) == s.remove(i),
    decreases i,
{
    if i == 0 {
        assert(s.drop_first() =~= s.remove(0));
    } else {
        assert(s[0] != x);
        assert(s.drop_first()[i - 1] == s[i]);
        assert(forall|j: int| 0 <= j < i - 1 ==> #[trigger] s.drop_first()[j] != x) by {
            assert(forall|j: int|
                0 <= j < s.drop_first().len() ==> #[trigger] s.drop_first()[j] == s[j + 1]);
        }
        lemma_remove_value_at(s.drop_first(), x, i - 1);
        assert(seq![s[0]] + s.drop_first().remove(i - 1) =~= s.remove(i));
    }
}

/// What membership `remove_value` leaves behind, for duplicate-free input:
/// exactly the other members, still duplicate-free.
pub proof fn lemma_remove_value_members(s: Seq<Seq<char>>, x: Seq<char>)
    requires
        nodup(s),
    ensures
        forall|y: Seq<char>|
            #[trigger] remove_value(s, x).contains(y) <==> (s.contains(y) && y != x),
        nodup(remove_value(s, x)),
{
    if s.contains(x) {
        let i = choose|i: int| 0 <= i < s.len() && s[i] == x;
        assert(forall|j: int| 0 <= j < i ==> s[j] != x);
        lemma_remove_value_at(s, x, i);
        let t = s.remove(i);
        assert forall|y: Seq<char>| #[trigger] t.contains(y) <==> (s.contains(y) && y != x) by {
            if t.contains(y) {
                let j = choose|j: int| 0 <= j < t.len() && t[j] == y;
                if j < i {
                    assert(s[j] == y);
                    assert(y != x);
                } else {
                    assert(s[j + 1] == y);
                    assert(y != x);
                }
            }
            if s.contains(y) && y != x {
                let j = choose|j: int| 0 <= j < s.len() && s[j] == y;
                if j < i {
                    assert(t[j] == y);
                } else {
                    assert(j > i);
                    assert(t[j - 1] == y);
                }
            }
        }
        assert forall|a: int, b: int| 0 <= a < b < t.len() implies t[a] != t[b] by {
            let sa = if a < i {
                a
            } else {
                a + 1
            };
            let sb = if b < i {
                b
            } else {
                b + 1
            };
            assert(t[a] == s[sa]);
            assert(t[b] == s[sb]);
        }
    } else {
        lemma_remove_value_absent(s, x);
    }
}

/// The first position of `x` in `v`, if any.
pub fn index_of_string(v: &Vec<String>, x: &str) -> (r: Option<usize>)
    ensures
        match r {
            Some(i) => i < v@.len() && views_of(v@)[i as int] == x@ && forall|j: int|
                0 <= j < i ==> views_of(v@)[j] != x@,
            None => !views_of(v@).contains(x@),
        },
{
    let mut i: usize = 0;
    while i < v.len()
        invariant
            i <= v@.len(),
            forall|j: int| 0 <= j < i ==> views_of(v@)[j] != x@,
        decreases v@.len() - i,
    {
        if crate::text::str_eq(v[i].as_str(), x) {
            assert(views_of(v@)[i as int] == x@);
            return Some(i);
        }
        i = i + 1;
    }
    proof {
        if views_of(v@).contains(x@) {
            let j = choose|j: int| 0 <= j < views_of(v@).len() && views_of(v@)[j] == x@;
        }
    }
    None
}

/// The membership-set families of the cache index store.
pub struct SetStore {
    table: Table<Vec<String>>,
}

impl SetStore {
    /// The members of the set under `k`; an absent set reads as empty.
    pub closed spec fn members(self, k: Seq<char>) -> Seq<Seq<char>> {
        match self.table.spec_get(k) {
            Some(v) => views_of(v@),
            None => Seq::empty(),
        }
    }

    /// Whether `m` is in the set under `k`.
    pub open spec fn has_member(self, k: Seq<char>, m: Seq<char>) -> bool {
        self.members(k).contains(m)
    }

    /// Every set holds each member once.
    pub closed spec fn wf(self) -> bool {
        &&& self.table.wf()
        &&& forall|k: Seq<char>| nodup(#[trigger] self.members(k))
    }

    /// A well-formed store's sets are duplicate-free.
    pub proof fn lemma_wf_members_nodup(self, k: Seq<char>)
        requires
            self.wf(),
        ensures
            nodup(self.members(k)),
    {
    }

    pub fn new() -> (r: Self)
        ensures
            r.wf(),
            forall|k: Seq<char>| #[trigger] r.members(k) == Seq::<Seq<char>>::empty(),
    {
        let r = SetStore { table: Table::new() };
        proof {
            assert forall|k: Seq<char>| #[trigger] r.members(k) == Seq::<Seq<char>>::empty() by {
                assert(!r.table.contains_key(k));
            }
        }
        r
    }

    /// Whether `member` is in the set under `key`.
    pub fn check(&self, key: &str, member: &str) -> (r: bool)
        ensures
            r == self.has_member(key@, member@),
    {
        match self.table.get(key) {
            Some(v) => crate::lists::contains_string(v, member),
            None => false,
        }
    }

    /// Answer every `(set key, member)` question of `checks` in one aligned
    /// pass: one pipelined round trip in the remote store.
    pub fn check_batch(&self, checks: &Vec<(String, String)>) -> (r: Vec<bool>)
        ensures
            r@.len() == checks@.len(),
            forall|i: int|
                0 <= i < checks@.len() ==> #[trigger] r@[i] == self.has_member(
                    checks@[i].0@,
                    checks@[i].1@,
                ),
    {
        let mut out: Vec<bool> = Vec::new();
        let mut i: usize = 0;
        while i < checks.len()
            invariant
                i <= checks@.len(),
                out@.len() == i,
                forall|j: int|
                    0 <= j < i ==> #[trigger] out@[j] == self.has_member(
                        checks@[j].0@,
                        checks@[j].1@,
                    ),
            decreases checks@.len() - i,
        {
            let b = self.check(checks[i].0.as_str(), checks[i].1.as_str());
            out.push(b);
            i = i + 1;
        }
        out
    }

    /// The first `limit` members of the set under `key`, in insertion
    /// order.
    pub fn members_page(&self, key: &str, limit: usize) -> (r: Vec<String>)
        ensures
            views_of(r@) == if (limit as nat) < self.members(key@).len() {
                self.members(key@).take(limit as int)
            } else {
                self.members(key@)
            },
    {
        let ghost ms = self.members(key@);
        let v = match self.table.get(key) {
            Some(v) => v,
            None => {
                proof {
                    assert(views_of(Seq::<String>::empty()) =~= Seq::<Seq<char>>::empty());
                }
                let out: Vec<String> = Vec::new();
                proof {
                    assert(views_of(out@) =~= ms);
                }
                return out;
            },
        };
        let end: usize = if limit < v.len() {
            limit
        } else {
            v.len()
        };
        let mut out: Vec<String> = Vec::new();
        let mut i: usize = 0;
        proof {
            assert(views_of(out@) =~= ms.take(0));
        }
        while i < end
            invariant
                i <= end <= v@.len(),
                ms == views_of(v@),
                views_of(out@) == ms.take(i as int),
            decreases end - i,
        {
            let ghost pre = views_of(out@);
            out.push(v[i].clone());
            proof {
                assert(views_of(out@) =~= pre.push(ms[i as int]));
                assert(ms.take(i + 1 as int) =~= ms.take(i as int).push(ms[i as int]));
            }
            i = i + 1;
        }
        proof {
            if end as nat == ms.len() {
                assert(ms.take(ms.len() as int) =~= ms);
            }
        }
        out
    }

    /// The members of the set under `key`, in insertion order, after
    /// dropping `skip` and keeping at most `limit`.
    pub fn members_range(&self, key: &str, skip: usize, limit: usize) -> (r: Vec<String>)
        ensures
            views_of(r@) == ({
                let ms = self.members(key@);
                let e = if skip > ms.len() {
                    skip as int
                } else if skip + limit < ms.len() {
                    skip + limit
                } else {
                    ms.len() as int
                };
                if skip >= ms.len() {
                    Seq::<Seq<char>>::empty()
                } else {
                    ms.subrange(skip as int, e)
                }
            }),
    {
        let ghost ms = self.members(key@);
        let v = match self.table.get(key) {
            Some(v) => v,
            None => {
                let out: Vec<String> = Vec::new();
                proof {
                    assert(views_of(out@) =~= Seq::<Seq<char>>::empty());
                }
                return out;
            },
        };
        let mut out: Vec<String> = Vec::new();
        if skip >= v.len() {
            proof {
                assert(views_of(out@) =~= Seq::<Seq<char>>::empty());
            }
            return out;
        }
        let end: usize = if limit < v.len() - skip {
            skip + limit
        } else {
            v.len()
        };
        let mut i: usize = skip;
        proof {
            assert(views_of(out@) =~= ms.subrange(skip as int, skip as int));
        }
        while i < end
            invariant
                skip <= i <= end <= v@.len(),
                ms == views_of(v@),
                views_of(out@) == ms.subrange(skip as int, i as int),
            decreases end - i,
        {
            let ghost pre = views_of(out@);
            out.push(v[i].clone());
            proof {
                assert(views_of(out@) =~= pre.push(ms[i as int]));
                assert(ms.subrange(skip as int, i + 1 as int) =~= ms.subrange(
                    skip as int,
                    i as int,
                ).push(ms[i as int]));
            }
            i = i + 1;
        }
        out
    }

    /// Put `member` into the set under `key`; returns whether it was newly
    /// added.
    pub fn add(&mut self, key: &str, member: &str) -> (added: bool)
        requires
            old(self).wf(),
        ensures
            final(self).wf(),
            added == !old(self).has_member(key@, member@),
            final(self).members(key@) == if added {
                old(self).members(key@).push(member@)
            } else {
                old(self).members(key@)
            },
            forall|q: Seq<char>|
                q != key@ ==> #[trigger] final(self).members(q) == old(self).members(q),
    {
        let ghost cur0 = self.members(key@);
        let mut v: Vec<String> = match self.table.take(key) {
            Some(v) => v,
            None => Vec::new(),
        };
        proof {
            assert(views_of(v@) =~= cur0);
        }
        let present = crate::lists::contains_string(&v, member);
        if !present {
            v.push(member.to_owned());
            proof {
                assert(views_of(v@) =~= cur0.push(member@));
            }
        }
        let ghost snap = *self;
        self.table.insert(key, v);
        proof {
            assert forall|q: Seq<char>| q != key@ implies #[trigger] self.members(q) == old(
                self,
            ).members(q) by {
                assert(self.table.spec_get(q) == snap.table.spec_get(q));
                assert(snap.table.spec_get(q) == old(self).table.spec_get(q));
            }
            assert forall|q: Seq<char>| true implies nodup(#[trigger] self.members(q)) by {
                if q != key@ {
                    assert(self.members(q) == old(self).members(q));
                } else if !present {
                    let s = self.members(key@);
                    assert forall|a: int, b: int| 0 <= a < b < s.len() implies s[a] != s[b] by {
                        if b == s.len() - 1 {
                            assert(s[a] == cur0[a]);
                            assert(!cur0.contains(member@));
                        } else {
                            assert(s[a] == cur0[a]);
                            assert(s[b] == cur0[b]);
                        }
                    }
                }
            }
        }
        !present
    }

    /// Drop `member` from the set under `key`; returns whether it was
    /// present.
    pub fn remove_member(&mut self, key: &str, member: &str) -> (removed: bool)
        requires
            old(self).wf(),
        ensures
            final(self).wf(),
            removed == old(self).has_member(key@, member@),
            final(self).members(key@) == remove_value(old(self).members(key@), member@),
            forall|q: Seq<char>|
                q != key@ ==> #[trigger] final(self).members(q) == old(self).members(q),
    {
        let ghost cur0 = self.members(key@);
        let mut v: Vec<String> = match self.table.take(key) {
            Some(v) => v,
            None => Vec::new(),
        };
        proof {
            assert(views_of(v@) =~= cur0);
        }
        let idx = index_of_string(&v, member);
        let found = idx.is_some();
        match idx {
            Some(i) => {
                proof {
                    lemma_remove_value_at(cur0, member@, i as int);
                }
                v.remove(i);
                proof {
                    assert(views_of(v@) =~= cur0.remove(i as int));
                }
            },
            None => {
                proof {
                    assert(!cur0.contains(member@));
                    lemma_remove_value_absent(cur0, member@);
                }
            },
        }
        let ghost snap = *self;
        self.table.insert(key, v);
        proof {
            assert forall|q: Seq<char>| q != key@ implies #[trigger] self.members(q) == old(
                self,
            ).members(q) by {
                assert(self.table.spec_get(q) == snap.table.spec_get(q));
                assert(snap.table.spec_get(q) == old(self).table.spec_get(q));
            }
            lemma_remove_value_members(cur0, member@);
            assert forall|q: Seq<char>| true implies nodup(#[trigger] self.members(q)) by {
                if q != key@ {
                    assert(self.members(q) == old(self).members(q));
                }
            }
        }
        found
    }
}

} // verus!
