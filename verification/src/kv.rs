//! The keyed record table: the model of one key/value family in the cache
//! index store.
//!
//! Every derived projection the engine maintains (counts per entity, detail
//! records, bookmarks, homeserver cursors, retry records, membership sets,
//! ordered lists) is a family of records under unique string keys.  `Table`
//! gives that family exact semantics: `spec_get` says what every key maps
//! to, and each operation states how it changes that mapping and nothing
//! else.
//!
//! `create_if_absent` is the model of the store's atomic create-if-absent
//! script: the remote store serializes racing writers, so a race of `k`
//! concurrent creators is a sequence of `k` calls of this operation, and
//! [`lemma_create_if_absent_race`] proves that exactly one of them wins.

use vstd::prelude::*;

verus! {

/// Association table with unique string keys.
pub struct Table<V> {
    entries: Vec<(String, V)>,
}

/// What a key association sequence maps `k` to, scanning from the front.
spec fn seq_get<V>(s: Seq<(String, V)>, k: Seq<char>) -> Option<V>
    decreases s.len(),
{
    if s.len() == 0 {
        None
    } else if s[0].0@ == k {
        Some(s[0].1)
    } else {
        seq_get(s.drop_first(), k)
    }
}

/// No key occurs twice.
spec fn seq_unique<V>(s: Seq<(String, V)>) -> bool {
    forall|i: int, j: int|
        #![trigger s[i].0@, s[j].0@]
        0 <= i < j < s.len() ==> s[i].0@ != s[j].0@
}

proof fn lemma_seq_get_absent<V>(s: Seq<(String, V)>, k: Seq<char>)
    requires
        forall|j: int| 0 <= j < s.len() ==> (#[trigger] s[j].0@) != k,
    ensures
        seq_get(s, k) is None,
    decreases s.len(),
{
    if s.len() > 0 {
        assert(s[0].0@ != k);
        assert forall|j: int|
            0 <= j < s.drop_first().len() implies (#[trigger] s.drop_first()[j].0@) != k by {
            assert(s.drop_first()[j] == s[j + 1]);
            assert(s[j + 1].0@ != k);
        }
        lemma_seq_get_absent(s.drop_first(), k);
    }
}

proof fn lemma_seq_get_first_match<V>(s: Seq<(String, V)>, k: Seq<char>, i: int)
    requires
        0 <= i < s.len(),
        s[i].0@ == k,
        forall|j: int| 0 <= j < i ==> (#[trigger] s[j].0@) != k,
    ensures
        seq_get(s, k) == Some(s[i].1),
    decreases i,
{
    if i > 0 {
        assert(s[0].0@ != k);
        assert(s.drop_first()[i - 1] == s[i]);
        assert forall|j: int| 0 <= j < i - 1 implies (#[trigger] s.drop_first()[j].0@) != k by {
            assert(s.drop_first()[j] == s[j + 1]);
            assert(s[j + 1].0@ != k);
        }
        lemma_seq_get_first_match(s.drop_first(), k, i - 1);
    }
}

proof fn lemma_seq_get_push<V>(s: Seq<(String, V)>, k: Seq<char>, key: String, v: V, q: Seq<char>)
    requires
        forall|j: int| 0 <= j < s.len() ==> (#[trigger] s[j].0@) != k,
        key@ == k,
    ensures
        seq_get(s.push((key, v)), q) == if q == k {
            Some(v)
        } else {
            seq_get(s, q)
        },
    decreases s.len(),
{
    let t = s.push((key, v));
    if s.len() == 0 {
        assert(t.len() == 1);
        assert(t[0] == (key, v));
        if q != k {
            assert(t.drop_first().len() == 0);
        }
    } else {
        assert(t[0] == s[0]);
        if s[0].0@ == q {
            assert(s[0].0@ != k);
        } else {
            assert(t.drop_first() =~= s.drop_first().push((key, v)));
            assert forall|j: int|
                0 <= j < s.drop_first().len() implies (#[trigger] s.drop_first()[j].0@) != k by {
                assert(s.drop_first()[j] == s[j + 1]);
                assert(s[j + 1].0@ != k);
            }
            lemma_seq_get_push(s.drop_first(), k, key, v, q);
        }
    }
}

proof fn lemma_seq_get_update<V>(s: Seq<(String, V)>, i: int, key: String, v: V, q: Seq<char>)
    requires
        seq_unique(s),
        0 <= i < s.len(),
        s[i].0@ == key@,
    ensures
        seq_get(s.update(i, (key, v)), q) == if q == key@ {
            Some(v)
        } else {
            seq_get(s, q)
        },
    decreases i,
{
    let t = s.update(i, (key, v));
    if i == 0 {
        assert(t[0] == (key, v));
        if q != key@ {
            assert(t.drop_first() =~= s.drop_first());
        }
    } else {
        assert(t[0] == s[0]);
        assert(s[0].0@ != key@);
        assert(t.drop_first() =~= s.drop_first().update(i - 1, (key, v)));
        assert forall|a: int, b: int|
            #![trigger s.drop_first()[a].0@, s.drop_first()[b].0@]
            0 <= a < b < s.drop_first().len() implies s.drop_first()[a].0@
            != s.drop_first()[b].0@ by {
            assert(s.drop_first()[a] == s[a + 1]);
            assert(s.drop_first()[b] == s[b + 1]);
            assert(s[a + 1].0@ != s[b + 1].0@);
        }
        assert(s.drop_first()[i - 1] == s[i]);
        lemma_seq_get_update(s.drop_first(), i - 1, key, v, q);
        if s[0].0@ == q {
        }
    }
}

proof fn lemma_seq_get_remove<V>(s: Seq<(String, V)>, i: int, q: Seq<char>)
    requires
        seq_unique(s),
        0 <= i < s.len(),
    ensures
        seq_get(s.remove(i), q) == if q == s[i].0@ {
            None::<V>
        } else {
            seq_get(s, q)
        },
    decreases i,
{
    let t = s.remove(i);
    if i == 0 {
        assert(t =~= s.drop_first());
        if q == s[0].0@ {
            assert(forall|j: int| 0 <= j < t.len() ==> (#[trigger] t[j].0@) != q) by {
                assert(forall|j: int| 0 <= j < t.len() ==> t[j] == s[j + 1]);
            }
            lemma_seq_get_absent(t, q);
        }
    } else {
        assert(t[0] == s[0]);
        assert(s[0].0@ != s[i].0@);
        assert(t.drop_first() =~= s.drop_first().remove(i - 1));
        assert forall|a: int, b: int|
            #![trigger s.drop_first()[a].0@, s.drop_first()[b].0@]
            0 <= a < b < s.drop_first().len() implies s.drop_first()[a].0@
            != s.drop_first()[b].0@ by {
            assert(s.drop_first()[a] == s[a + 1]);
            assert(s.drop_first()[b] == s[b + 1]);
            assert(s[a + 1].0@ != s[b + 1].0@);
        }
        assert(s.drop_first()[i - 1] == s[i]);
        lemma_seq_get_remove(s.drop_first(), i - 1, q);
        if s[0].0@ == q {
        }
    }
}

impl<V> Table<V> {
    /// The record stored under key `k`, if any.
    pub closed spec fn spec_get(self, k: Seq<char>) -> Option<V> {
        seq_get(self.entries@, k)
    }

    /// Whether a record exists under key `k`.
    pub open spec fn contains_key(self, k: Seq<char>) -> bool {
        self.spec_get(k) is Some
    }

    /// Internal well-formedness: no key occurs twice.
    pub closed spec fn wf(self) -> bool {
        seq_unique(self.entries@)
    }

    /// How many records the table holds.
    pub closed spec fn spec_len(self) -> nat {
        self.entries@.len()
    }

    pub fn new() -> (t: Self)
        ensures
            t.wf(),
            t.spec_len() == 0,
            forall|k: Seq<char>| !(#[trigger] t.contains_key(k)),
    {
        let t = Table { entries: Vec::new() };
        proof {
            assert forall|k: Seq<char>| !(#[trigger] t.contains_key(k)) by {
                lemma_seq_get_absent(t.entries@, k);
            }
        }
        t
    }

    /// First index holding key `k`, if any.
    fn find(&self, k: &str) -> (r: Option<usize>)
        ensures
            match r {
                Some(i) => i < self.entries@.len() && self.entries@[i as int].0@ == k@
                    && self.spec_get(k@) == Some(self.entries@[i as int].1),
                None => self.spec_get(k@) is None,
            },
    {
        let mut i: usize = 0;
        let n = self.entries.len();
        while i < n
            invariant
                i <= n,
                n == self.entries@.len(),
                forall|j: int| 0 <= j < i ==> (#[trigger] self.entries@[j].0@) != k@,
            decreases n - i,
        {
            if crate::text::str_eq(self.entries[i].0.as_str(), k) {
                proof {
                    lemma_seq_get_first_match(self.entries@, k@, i as int);
                }
                return Some(i);
            }
            i = i + 1;
        }
        proof {
            lemma_seq_get_absent(self.entries@, k@);
        }
        None
    }

    /// Fetch the record under `k`; a missing record is `None`, never an
    /// error.
    pub fn get(&self, k: &str) -> (r: Option<&V>)
        ensures
            match r {
                Some(v) => self.spec_get(k@) == Some(*v),
                None => self.spec_get(k@) is None,
            },
    {
        match self.find(k) {
            Some(i) => Some(&self.entries[i].1),
            None => None,
        }
    }

    /// Whether a record exists under `k`.
    pub fn contains(&self, k: &str) -> (r: bool)
        ensures
            r == self.contains_key(k@),
    {
        self.find(k).is_some()
    }

    /// Store `v` under `k`, replacing any previous record.
    pub fn insert(&mut self, k: &str, v: V)
        requires
            old(self).wf(),
        ensures
            final(self).wf(),
            final(self).spec_get(k@) == Some(v),
            forall|q: Seq<char>|
                q != k@ ==> #[trigger] final(self).spec_get(q) == old(self).spec_get(q),
    {
        let ghost s0 = self.entries@;
        match self.find(k) {
            Some(i) => {
                let key = self.entries[i].0.clone();
                self.entries.set(i, (key, v));
                proof {
                    assert forall|q: Seq<char>| true implies #[trigger] seq_get(
                        self.entries@,
                        q,
                    ) == if q == k@ {
                        Some(v)
                    } else {
                        seq_get(s0, q)
                    } by {
                        lemma_seq_get_update(s0, i as int, s0[i as int].0, v, q);
                        assert(self.entries@ =~= s0.update(i as int, (s0[i as int].0, v)));
                    }
                    assert(seq_unique(self.entries@)) by {
                        assert(forall|j: int|
                            0 <= j < self.entries@.len() ==> (#[trigger] self.entries@[j].0@)
                                == s0[j].0@);
                    }
                }
            },
            None => {
                let key = k.to_owned();
                self.entries.push((key, v));
                proof {
                    assert forall|q: Seq<char>| true implies #[trigger] seq_get(
                        self.entries@,
                        q,
                    ) == if q == k@ {
                        Some(v)
                    } else {
                        seq_get(s0, q)
                    } by {
                        assert(forall|j: int| 0 <= j < s0.len() ==> (#[trigger] s0[j].0@) != k@)
                            by {
                            if exists|j: int| 0 <= j < s0.len() && (#[trigger] s0[j].0@) == k@ {
                                let j = choose|j: int|
                                    0 <= j < s0.len() && (#[trigger] s0[j].0@) == k@;
                                lemma_seq_get_first_match_exists(s0, k@, j);
                            }
                        }
                        lemma_seq_get_push(s0, k@, self.entries@.last().0, v, q);
                    }
                    assert(forall|j: int| 0 <= j < s0.len() ==> (#[trigger] s0[j].0@) != k@) by {
                        if exists|j: int| 0 <= j < s0.len() && (#[trigger] s0[j].0@) == k@ {
                            let j = choose|j: int| 0 <= j < s0.len() && (#[trigger] s0[j].0@) == k@;
                            lemma_seq_get_first_match_exists(s0, k@, j);
                        }
                    }
                    assert forall|a: int, b: int|
                        #![trigger self.entries@[a].0@, self.entries@[b].0@]
                        0 <= a < b < self.entries@.len() implies self.entries@[a].0@
                        != self.entries@[b].0@ by {
                        assert(self.entries@[a] == s0[a]);
                        if b == s0.len() {
                            assert(self.entries@[b].0@ == k@);
                            assert(s0[a].0@ != k@);
                        } else {
                            assert(self.entries@[b] == s0[b]);
                        }
                    }
                    assert(seq_unique(self.entries@));
                }
            },
        }
    }

    /// Atomically create `default` under `k` only if no record exists;
    /// returns whether this call created it.  Later creators observe
    /// "already exists" and change nothing.
    pub fn create_if_absent(&mut self, k: &str, default: V) -> (created: bool)
        requires
            old(self).wf(),
        ensures
            final(self).wf(),
            created == !old(self).contains_key(k@),
            final(self).spec_get(k@) == if created {
                Some(default)
            } else {
                old(self).spec_get(k@)
            },
            forall|q: Seq<char>|
                q != k@ ==> #[trigger] final(self).spec_get(q) == old(self).spec_get(q),
    {
        if self.contains(k) {
            false
        } else {
            self.insert(k, default);
            true
        }
    }

    /// Remove and hand back the record under `k`, if any.
    pub fn take(&mut self, k: &str) -> (r: Option<V>)
        requires
            old(self).wf(),
        ensures
            final(self).wf(),
            match r {
                Some(v) => old(self).spec_get(k@) == Some(v),
                None => old(self).spec_get(k@) is None,
            },
            final(self).spec_get(k@) is None,
            forall|q: Seq<char>|
                q != k@ ==> #[trigger] final(self).spec_get(q) == old(self).spec_get(q),
    {
        let ghost s0 = self.entries@;
        match self.find(k) {
            Some(i) => {
                let pair = self.entries.remove(i);
                proof {
                    assert forall|q: Seq<char>| true implies #[trigger] seq_get(
                        self.entries@,
                        q,
                    ) == if q == k@ {
                        None::<V>
                    } else {
                        seq_get(s0, q)
                    } by {
                        lemma_seq_get_remove(s0, i as int, q);
                        assert(self.entries@ =~= s0.remove(i as int));
                        assert(s0[i as int].0@ == k@);
                    }
                    assert(seq_unique(self.entries@)) by {
                        assert(forall|j: int|
                            0 <= j < self.entries@.len() ==> #[trigger] self.entries@[j]
                                == s0.remove(i as int)[j]);
                    }
                }
                Some(pair.1)
            },
            None => None,
        }
    }

    /// Delete the record under `k`; returns whether one existed.
    pub fn remove(&mut self, k: &str) -> (removed: bool)
        requires
            old(self).wf(),
        ensures
            final(self).wf(),
            removed == old(self).contains_key(k@),
            final(self).spec_get(k@) is None,
            forall|q: Seq<char>|
                q != k@ ==> #[trigger] final(self).spec_get(q) == old(self).spec_get(q),
    {
        let ghost s0 = self.entries@;
        match self.find(k) {
            Some(i) => {
                self.entries.remove(i);
                proof {
                    assert forall|q: Seq<char>| true implies #[trigger] seq_get(
                        self.entries@,
                        q,
                    ) == if q == k@ {
                        None::<V>
                    } else {
                        seq_get(s0, q)
                    } by {
                        lemma_seq_get_remove(s0, i as int, q);
                        assert(self.entries@ =~= s0.remove(i as int));
                        assert(s0[i as int].0@ == k@);
                    }
                    assert(seq_unique(self.entries@)) by {
                        assert(forall|j: int|
                            0 <= j < self.entries@.len() ==> #[trigger] self.entries@[j]
                                == s0.remove(i as int)[j]);
                    }
                }
                true
            },
            None => false,
        }
    }
}

proof fn lemma_seq_get_first_match_exists<V>(s: Seq<(String, V)>, k: Seq<char>, j: int)
    requires
        0 <= j < s.len(),
        s[j].0@ == k,
    ensures
        seq_get(s, k) is Some,
    decreases j,
{
    if s[0].0@ != k {
        assert(s.drop_first()[j - 1] == s[j]);
        lemma_seq_get_first_match_exists(s.drop_first(), k, j - 1);
    }
}

/// One `create_if_absent` transition, exactly as the operation's contract
/// states it.  The remote store serializes concurrent creators, so a race of
/// `k` simultaneous callers is a chain of `k` such transitions.
pub open spec fn create_step<V>(
    pre: Table<V>,
    post: Table<V>,
    created: bool,
    k: Seq<char>,
    v: V,
) -> bool {
    &&& created == !pre.contains_key(k)
    &&& post.spec_get(k) == if created {
        Some(v)
    } else {
        pre.spec_get(k)
    }
    &&& forall|q: Seq<char>| q != k ==> #[trigger] post.spec_get(q) == pre.spec_get(q)
}

/// A serialized race of `create_if_absent` callers: `tables[0]` is the state
/// before the race, each `flags[i]` is what caller `i` was told, and each
/// adjacent pair of states is one `create_if_absent` transition.
pub open spec fn create_chain<V>(
    tables: Seq<Table<V>>,
    flags: Seq<bool>,
    k: Seq<char>,
    v: V,
) -> bool
    decreases flags.len(),
{
    &&& tables.len() == flags.len() + 1
    &&& (flags.len() > 0 ==> {
        &&& create_step(tables[0], tables[1], flags[0], k, v)
        &&& create_chain(tables.drop_first(), flags.drop_first(), k, v)
    })
}

/// Atomic first-write: for every concurrency degree `n >= 1`, a chain of `n`
/// serialized `create_if_absent` transitions for one never-before-seen key
/// tells exactly the first caller "created" and all `n - 1` others "already
/// exists", and leaves the stored record equal to `v`, untouched by the
/// losers.
pub proof fn lemma_create_if_absent_race<V>(
    tables: Seq<Table<V>>,
    flags: Seq<bool>,
    k: Seq<char>,
    v: V,
)
    requires
        create_chain(tables, flags, k, v),
        flags.len() >= 1,
        !tables[0].contains_key(k),
    ensures
        flags[0] == true,
        forall|i: int| 1 <= i < flags.len() ==> #[trigger] flags[i] == false,
        tables.last().spec_get(k) == Some(v),
{
    assert(tables[1].spec_get(k) == Some(v));
    lemma_create_race_after_first(tables.drop_first(), flags.drop_first(), k, v);
    assert(forall|i: int| 1 <= i < flags.len() ==> flags[i] == flags.drop_first()[i - 1]);
    if flags.len() == 1 {
        assert(tables.last() == tables[1]);
    } else {
        assert(tables.last() == tables.drop_first().last());
    }
}

/// After the winning creator, the record stays `Some(v)` and every further
/// caller is told "already exists".
proof fn lemma_create_race_after_first<V>(
    tables: Seq<Table<V>>,
    flags: Seq<bool>,
    k: Seq<char>,
    v: V,
)
    requires
        create_chain(tables, flags, k, v),
        tables[0].spec_get(k) == Some(v),
    ensures
        forall|i: int| 0 <= i < flags.len() ==> #[trigger] flags[i] == false,
        tables.last().spec_get(k) == Some(v),
    decreases flags.len(),
{
    if flags.len() == 0 {
        assert(tables.last() == tables[0]);
    } else {
        assert(tables[1].spec_get(k) == Some(v));
        lemma_create_race_after_first(tables.drop_first(), flags.drop_first(), k, v);
        assert(forall|i: int| 1 <= i < flags.len() ==> flags[i] == flags.drop_first()[i - 1]);
        assert(tables.last() == tables.drop_first().last());
    }
}

} // verus!
