//! The user search index: lexicographic lookup of users by name prefix and
//! by id prefix, safe under renames and deletions.
//!
//! The name index ranks one `(folded name, user id)` entry per user; names
//! are case-folded before indexing and before querying.  Re-indexing a user
//! first discovers and retires every entry carrying that user's id — a full
//! scan of the index, not a possibly-stale secondary pointer — and only then
//! inserts the new entry.  That is what makes
//! [`lemma_rename_keeps_one_entry`] (no duplicate survives a rename) and
//! [`lemma_delete_no_orphan`] (no orphan survives a deletion) true.

use crate::lists::nodup;
use crate::records::UserDetails;
use crate::sets::remove_value;
use crate::text::{is_prefix_of, lower_of};
use vstd::prelude::*;

verus! {

/// The views of the `(folded name, user id)` pairs in `v`.
pub open spec fn pair_views(v: Seq<(String, String)>) -> Seq<(Seq<char>, Seq<char>)> {
    v.map_values(|p: (String, String)| (p.0@, p.1@))
}

/// The views of the `(id, name)` fields of a details batch.
pub open spec fn detail_views(v: Seq<UserDetails>) -> Seq<(Seq<char>, Seq<char>)> {
    v.map_values(|d: UserDetails| (d.id@, d.name@))
}

/// The name a deleted user carries; such a user is never indexed.
pub open spec fn deleted_name() -> Seq<char> {
    "[DELETED]"@
}

/// `s` with every entry for user `id` dropped.
pub open spec fn remove_id(s: Seq<(Seq<char>, Seq<char>)>, id: Seq<char>) -> Seq<
    (Seq<char>, Seq<char>),
>
    decreases s.len(),
{
    if s.len() == 0 {
        s
    } else if s[0].1 == id {
        remove_id(s.drop_first(), id)
    } else {
        seq![s[0]] + remove_id(s.drop_first(), id)
    }
}

/// The entries whose folded name starts with `p`, in index order.
pub open spec fn matches_of(s: Seq<(Seq<char>, Seq<char>)>, p: Seq<char>) -> Seq<
    (Seq<char>, Seq<char>),
>
    decreases s.len(),
{
    if s.len() == 0 {
        s
    } else if is_prefix_of(p, s[0].0) {
        seq![s[0]] + matches_of(s.drop_first(), p)
    } else {
        matches_of(s.drop_first(), p)
    }
}

/// The ids starting with `p`, in index order.
pub open spec fn id_matches_of(s: Seq<Seq<char>>, p: Seq<char>) -> Seq<Seq<char>>
    decreases s.len(),
{
    if s.len() == 0 {
        s
    } else if is_prefix_of(p, s[0]) {
        seq![s[0]] + id_matches_of(s.drop_first(), p)
    } else {
        id_matches_of(s.drop_first(), p)
    }
}

/// No two entries carry the same user id.
pub open spec fn distinct_ids(s: Seq<(Seq<char>, Seq<char>)>) -> bool {
    forall|i: int, j: int| #![trigger s[i].1, s[j].1] 0 <= i < j < s.len() ==> s[i].1 != s[j].1
}

/// One re-indexing step on the name index: retire every entry of the user,
/// then insert the new one unless the user is deleted.
pub open spec fn put_one_names(
    s: Seq<(Seq<char>, Seq<char>)>,
    id: Seq<char>,
    name: Seq<char>,
) -> Seq<(Seq<char>, Seq<char>)> {
    let cleared = remove_id(s, id);
    if name == deleted_name() {
        cleared
    } else {
        cleared.push((lower_of(name), id))
    }
}

/// One re-indexing step on the id index.
pub open spec fn put_one_ids(s: Seq<Seq<char>>, id: Seq<char>, name: Seq<char>) -> Seq<Seq<char>> {
    let cleared = remove_value(s, id);
    if name == deleted_name() {
        cleared
    } else {
        cleared.push(id)
    }
}

/// A whole details batch folded over the name index, first to last.
pub open spec fn puts_names(
    s: Seq<(Seq<char>, Seq<char>)>,
    ds: Seq<(Seq<char>, Seq<char>)>,
) -> Seq<(Seq<char>, Seq<char>)>
    decreases ds.len(),
{
    if ds.len() == 0 {
        s
    } else {
        puts_names(put_one_names(s, ds[0].0, ds[0].1), ds.drop_first())
    }
}

/// A whole details batch folded over the id index, first to last.
pub open spec fn puts_ids(s: Seq<Seq<char>>, ds: Seq<(Seq<char>, Seq<char>)>) -> Seq<Seq<char>>
    decreases ds.len(),
{
    if ds.len() == 0 {
        s
    } else {
        puts_ids(put_one_ids(s, ds[0].0, ds[0].1), ds.drop_first())
    }
}

proof fn lemma_puts_names_snoc(
    s: Seq<(Seq<char>, Seq<char>)>,
    ds: Seq<(Seq<char>, Seq<char>)>,
    d: (Seq<char>, Seq<char>),
)
    ensures
        puts_names(s, ds.push(d)) == put_one_names(puts_names(s, ds), d.0, d.1),
    decreases ds.len(),
{
    if ds.len() == 0 {
        let ds1 = ds.push(d);
        assert(ds1[0] == d);
        assert(ds1.drop_first() =~= ds);
        assert(puts_names(s, ds) == s);
        assert(puts_names(s, ds1) == puts_names(put_one_names(s, d.0, d.1), ds));
        assert(puts_names(put_one_names(s, d.0, d.1), ds) == put_one_names(s, d.0, d.1));
    } else {
        assert(ds.push(d)[0] == ds[0]);
        assert(ds.push(d).drop_first() =~= ds.drop_first().push(d));
        assert(puts_names(s, ds.push(d)) == puts_names(
            put_one_names(s, ds[0].0, ds[0].1),
            ds.drop_first().push(d),
        ));
        assert(puts_names(s, ds) == puts_names(put_one_names(s, ds[0].0, ds[0].1), ds.drop_first()));
        lemma_puts_names_snoc(put_one_names(s, ds[0].0, ds[0].1), ds.drop_first(), d);
    }
}

proof fn lemma_puts_ids_snoc(s: Seq<Seq<char>>, ds: Seq<(Seq<char>, Seq<char>)>, d: (Seq<char>, Seq<char>))
    ensures
        puts_ids(s, ds.push(d)) == put_one_ids(puts_ids(s, ds), d.0, d.1),
    decreases ds.len(),
{
    if ds.len() == 0 {
        let ds1 = ds.push(d);
        assert(ds1[0] == d);
        assert(ds1.drop_first() =~= ds);
        assert(puts_ids(s, ds) == s);
        assert(puts_ids(s, ds1) == puts_ids(put_one_ids(s, d.0, d.1), ds));
        assert(puts_ids(put_one_ids(s, d.0, d.1), ds) == put_one_ids(s, d.0, d.1));
    } else {
        assert(ds.push(d)[0] == ds[0]);
        assert(ds.push(d).drop_first() =~= ds.drop_first().push(d));
        assert(puts_ids(s, ds.push(d)) == puts_ids(
            put_one_ids(s, ds[0].0, ds[0].1),
            ds.drop_first().push(d),
        ));
        assert(puts_ids(s, ds) == puts_ids(put_one_ids(s, ds[0].0, ds[0].1), ds.drop_first()));
        lemma_puts_ids_snoc(put_one_ids(s, ds[0].0, ds[0].1), ds.drop_first(), d);
    }
}

/// Membership after clearing a user: exactly the entries of other users.
pub proof fn lemma_remove_id_members(s: Seq<(Seq<char>, Seq<char>)>, id: Seq<char>)
    ensures
        forall|e: (Seq<char>, Seq<char>)|
            #[trigger] remove_id(s, id).contains(e) <==> (s.contains(e) && e.1 != id),
    decreases s.len(),
{
    lemma_remove_id_members_helper(s, id);
}

proof fn lemma_remove_id_members_helper(s: Seq<(Seq<char>, Seq<char>)>, id: Seq<char>)
    ensures
        forall|e: (Seq<char>, Seq<char>)|
            #[trigger] remove_id(s, id).contains(e) <==> (s.contains(e) && e.1 != id),
    decreases s.len(),
{
    if s.len() > 0 {
        lemma_remove_id_members_helper(s.drop_first(), id);
        let t = remove_id(s, id);
        let tr = remove_id(s.drop_first(), id);
        assert forall|e: (Seq<char>, Seq<char>)| #[trigger] t.contains(e) <==> (s.contains(e)
            && e.1 != id) by {
            if s[0].1 == id {
                assert(t == tr);
                if s.contains(e) && e.1 != id {
                    let i = choose|i: int| 0 <= i < s.len() && s[i] == e;
                    assert(i != 0);
                    assert(s.drop_first()[i - 1] == e);
                }
            } else {
                assert(t == seq![s[0]] + tr);
                if t.contains(e) {
                    let i = choose|i: int| 0 <= i < t.len() && t[i] == e;
                    if i == 0 {
                        assert(e == s[0]);
                        assert(s[0].1 != id);
                    } else {
                        assert(tr.contains(e)) by {
                            assert(tr[i - 1] == e);
                        }
                        let j = choose|j: int| 0 <= j < s.drop_first().len() && s.drop_first()[j] == e;
                        assert(s[j + 1] == e);
                    }
                }
                if s.contains(e) && e.1 != id {
                    let i = choose|i: int| 0 <= i < s.len() && s[i] == e;
                    if i == 0 {
                        assert(t[0] == e);
                    } else {
                        assert(s.drop_first()[i - 1] == e);
                        assert(tr.contains(e));
                        let j = choose|j: int| 0 <= j < tr.len() && tr[j] == e;
                        assert(t[j + 1] == e);
                    }
                }
            }
        }
    }
}

/// Clearing a user keeps the per-user uniqueness of the index.
pub proof fn lemma_remove_id_distinct(s: Seq<(Seq<char>, Seq<char>)>, id: Seq<char>)
    requires
        distinct_ids(s),
    ensures
        distinct_ids(remove_id(s, id)),
        forall|j: int| 0 <= j < remove_id(s, id).len() ==> (#[trigger] remove_id(s, id)[j]).1 != id,
    decreases s.len(),
{
    if s.len() > 0 {
        assert(distinct_ids(s.drop_first())) by {
            assert(forall|i: int|
                0 <= i < s.drop_first().len() ==> #[trigger] s.drop_first()[i] == s[i + 1]);
        }
        lemma_remove_id_distinct(s.drop_first(), id);
        if s[0].1 != id {
            let tr = remove_id(s.drop_first(), id);
            let t = seq![s[0]] + tr;
            lemma_remove_id_members(s.drop_first(), id);
            assert forall|a: int, b: int|
                #![trigger t[a].1, t[b].1]
                0 <= a < b < t.len() implies t[a].1 != t[b].1 by {
                if a == 0 {
                    assert(t[b] == tr[b - 1]);
                    assert(tr.contains(tr[b - 1]));
                    assert(s.drop_first().contains(tr[b - 1]));
                    let j = choose|j: int|
                        0 <= j < s.drop_first().len() && s.drop_first()[j] == tr[b - 1];
                    assert(s[j + 1] == tr[b - 1]);
                    assert(s[0].1 != s[j + 1].1);
                } else {
                    assert(t[a] == tr[a - 1]);
                    assert(t[b] == tr[b - 1]);
                }
            }
        }
    }
}

/// Membership in a prefix search: exactly the index entries whose folded
/// name starts with the prefix.
pub proof fn lemma_matches_members(s: Seq<(Seq<char>, Seq<char>)>, p: Seq<char>)
    ensures
        forall|e: (Seq<char>, Seq<char>)|
            #[trigger] matches_of(s, p).contains(e) <==> (s.contains(e) && is_prefix_of(p, e.0)),
    decreases s.len(),
{
    if s.len() > 0 {
        lemma_matches_members(s.drop_first(), p);
        let t = matches_of(s, p);
        let tr = matches_of(s.drop_first(), p);
        assert forall|e: (Seq<char>, Seq<char>)| #[trigger] t.contains(e) <==> (s.contains(e)
            && is_prefix_of(p, e.0)) by {
            if is_prefix_of(p, s[0].0) {
                assert(t == seq![s[0]] + tr);
                if t.contains(e) {
                    let i = choose|i: int| 0 <= i < t.len() && t[i] == e;
                    if i == 0 {
                    } else {
                        assert(tr[i - 1] == e);
                        assert(tr.contains(e));
                        let j = choose|j: int| 0 <= j < s.drop_first().len() && s.drop_first()[j] == e;
                        assert(s[j + 1] == e);
                    }
                }
                if s.contains(e) && is_prefix_of(p, e.0) {
                    let i = choose|i: int| 0 <= i < s.len() && s[i] == e;
                    if i == 0 {
                        assert(t[0] == e);
                    } else {
                        assert(s.drop_first()[i - 1] == e);
                        assert(s.drop_first().contains(e));
                        assert(tr.contains(e));
                        let j = choose|j: int| 0 <= j < tr.len() && tr[j] == e;
                        assert(t[j + 1] == e);
                    }
                }
            } else {
                assert(t == tr);
                if s.contains(e) && is_prefix_of(p, e.0) {
                    let i = choose|i: int| 0 <= i < s.len() && s[i] == e;
                    assert(i != 0);
                    assert(s.drop_first()[i - 1] == e);
                    assert(s.drop_first().contains(e));
                }
            }
        }
    }
}

pub proof fn lemma_remove_id_snoc(s: Seq<(Seq<char>, Seq<char>)>, id: Seq<char>, x: (Seq<char>, Seq<char>))
    ensures
        remove_id(s.push(x), id) == if x.1 == id {
            remove_id(s, id)
        } else {
            remove_id(s, id).push(x)
        },
    decreases s.len(),
{
    if s.len() == 0 {
        let s1 = s.push(x);
        assert(s1[0] == x);
        assert(s1.drop_first() =~= s);
        if x.1 != id {
            assert(seq![x] + remove_id(s, id) =~= remove_id(s, id).push(x));
        }
    } else {
        assert(s.push(x)[0] == s[0]);
        assert(s.push(x).drop_first() =~= s.drop_first().push(x));
        lemma_remove_id_snoc(s.drop_first(), id, x);
        if s[0].1 != id && x.1 != id {
            assert(seq![s[0]] + remove_id(s.drop_first(), id).push(x) =~= (seq![s[0]] + remove_id(
                s.drop_first(),
                id,
            )).push(x));
        }
    }
}

proof fn lemma_matches_snoc(s: Seq<(Seq<char>, Seq<char>)>, p: Seq<char>, x: (Seq<char>, Seq<char>))
    ensures
        matches_of(s.push(x), p) == if is_prefix_of(p, x.0) {
            matches_of(s, p).push(x)
        } else {
            matches_of(s, p)
        },
    decreases s.len(),
{
    if s.len() == 0 {
        let s1 = s.push(x);
        assert(s1[0] == x);
        assert(s1.drop_first() =~= s);
        if is_prefix_of(p, x.0) {
            assert(seq![x] + matches_of(s, p) =~= matches_of(s, p).push(x));
        }
    } else {
        assert(s.push(x)[0] == s[0]);
        assert(s.push(x).drop_first() =~= s.drop_first().push(x));
        lemma_matches_snoc(s.drop_first(), p, x);
        if is_prefix_of(p, s[0].0) && is_prefix_of(p, x.0) {
            assert(seq![s[0]] + matches_of(s.drop_first(), p).push(x) =~= (seq![s[0]] + matches_of(
                s.drop_first(),
                p,
            )).push(x));
        }
    }
}

pub proof fn lemma_id_matches_snoc(s: Seq<Seq<char>>, p: Seq<char>, x: Seq<char>)
    ensures
        id_matches_of(s.push(x), p) == if is_prefix_of(p, x) {
            id_matches_of(s, p).push(x)
        } else {
            id_matches_of(s, p)
        },
    decreases s.len(),
{
    if s.len() == 0 {
        let s1 = s.push(x);
        assert(s1[0] == x);
        assert(s1.drop_first() =~= s);
        if is_prefix_of(p, x) {
            assert(seq![x] + id_matches_of(s, p) =~= id_matches_of(s, p).push(x));
        }
    } else {
        assert(s.push(x)[0] == s[0]);
        assert(s.push(x).drop_first() =~= s.drop_first().push(x));
        lemma_id_matches_snoc(s.drop_first(), p, x);
        if is_prefix_of(p, s[0]) && is_prefix_of(p, x) {
            assert(seq![s[0]] + id_matches_of(s.drop_first(), p).push(x) =~= (seq![s[0]]
                + id_matches_of(s.drop_first(), p)).push(x));
        }
    }
}

/// List of user ids, as a search answer.
pub struct UserSearch(pub Vec<String>);

/// The two sorted search families: users by folded name, users by id.
pub struct SearchIndex {
    names: Vec<(String, String)>,
    ids: Vec<String>,
}

impl SearchIndex {
    /// The `(folded name, user id)` entries, in index order.
    pub closed spec fn names_view(self) -> Seq<(Seq<char>, Seq<char>)> {
        pair_views(self.names@)
    }

    /// The indexed user ids, in index order.
    pub closed spec fn ids_view(self) -> Seq<Seq<char>> {
        crate::lists::views_of(self.ids@)
    }

    /// Each user appears at most once in either family.
    pub open spec fn wf(self) -> bool {
        &&& distinct_ids(self.names_view())
        &&& nodup(self.ids_view())
    }

    pub fn new() -> (r: Self)
        ensures
            r.wf(),
            r.names_view() == Seq::<(Seq<char>, Seq<char>)>::empty(),
            r.ids_view() == Seq::<Seq<char>>::empty(),
    {
        let r = SearchIndex { names: Vec::new(), ids: Vec::new() };
        proof {
            assert(r.names_view() =~= Seq::<(Seq<char>, Seq<char>)>::empty());
            assert(r.ids_view() =~= Seq::<Seq<char>>::empty());
        }
        r
    }

    /// Retire every index entry of each of `user_ids`, in both families.
    fn delete_existing_records(&mut self, user_ids: &Vec<String>)
        requires
            old(self).wf(),
        ensures
            final(self).wf(),
            final(self).names_view() == clear_ids(old(self).names_view(), crate::lists::views_of(
                user_ids@,
            )),
            final(self).ids_view() == clear_values(old(self).ids_view(), crate::lists::views_of(
                user_ids@,
            )),
    {
        let mut i: usize = 0;
        while i < user_ids.len()
            invariant
                i <= user_ids@.len(),
                self.wf(),
                self.names_view() == clear_ids(
                    old(self).names_view(),
                    crate::lists::views_of(user_ids@).take(i as int),
                ),
                self.ids_view() == clear_values(
                    old(self).ids_view(),
                    crate::lists::views_of(user_ids@).take(i as int),
                ),
            decreases user_ids@.len() - i,
        {
            let ghost ids_pref = crate::lists::views_of(user_ids@).take(i as int);
            let ghost id = user_ids@[i as int]@;
            self.remove_user(user_ids[i].as_str());
            proof {
                lemma_clear_ids_snoc(old(self).names_view(), ids_pref, id);
                lemma_clear_values_snoc(old(self).ids_view(), ids_pref, id);
                assert(crate::lists::views_of(user_ids@).take(i + 1 as int) =~= ids_pref.push(id));
            }
            i = i + 1;
        }
        proof {
            assert(crate::lists::views_of(user_ids@).take(user_ids@.len() as int)
                =~= crate::lists::views_of(user_ids@));
        }
    }

    /// Retire one user from both families.
    fn remove_user(&mut self, user_id: &str)
        requires
            old(self).wf(),
        ensures
            final(self).wf(),
            final(self).names_view() == remove_id(old(self).names_view(), user_id@),
            final(self).ids_view() == remove_value(old(self).ids_view(), user_id@),
    {
        let ghost names0 = self.names_view();
        let mut kept: Vec<(String, String)> = Vec::new();
        let mut i: usize = 0;
        proof {
            assert(pair_views(kept@) =~= remove_id(names0.take(0), user_id@)) by {
                assert(names0.take(0) =~= Seq::<(Seq<char>, Seq<char>)>::empty());
            }
        }
        while i < self.names.len()
            invariant
                i <= self.names@.len(),
                names0 == self.names_view(),
                pair_views(kept@) == remove_id(names0.take(i as int), user_id@),
            decreases self.names@.len() - i,
        {
            let ghost pre = pair_views(kept@);
            let drop = crate::text::str_eq(self.names[i].1.as_str(), user_id);
            if !drop {
                kept.push((self.names[i].0.clone(), self.names[i].1.clone()));
            }
            proof {
                let e = names0[i as int];
                assert(names0.take(i + 1 as int) =~= names0.take(i as int).push(e));
                lemma_remove_id_snoc(names0.take(i as int), user_id@, e);
                if !drop {
                    assert(pair_views(kept@) =~= pre.push(e));
                }
            }
            i = i + 1;
        }
        self.names = kept;
        proof {
            assert(names0.take(names0.len() as int) =~= names0);
        }
        match crate::sets::index_of_string(&self.ids, user_id) {
            Some(j) => {
                proof {
                    crate::sets::lemma_remove_value_at(self.ids_view(), user_id@, j as int);
                }
                let ghost ids0 = self.ids_view();
                self.ids.remove(j);
                proof {
                    assert(self.ids_view() =~= ids0.remove(j as int));
                }
            },
            None => {
                proof {
                    crate::sets::lemma_remove_value_absent(self.ids_view(), user_id@);
                }
            },
        }
        proof {
            lemma_remove_id_distinct(names0, user_id@);
            crate::sets::lemma_remove_value_members(old(self).ids_view(), user_id@);
        }
    }

    /// Re-index a batch of users: for each, retire all existing entries of
    /// the user's id and insert the entry for the folded current name,
    /// unless the user is deleted.
    pub fn put_to_index(&mut self, details_list: &Vec<UserDetails>)
        requires
            old(self).wf(),
        ensures
            final(self).wf(),
            final(self).names_view() == puts_names(
                old(self).names_view(),
                detail_views(details_list@),
            ),
            final(self).ids_view() == puts_ids(
                old(self).ids_view(),
                detail_views(details_list@),
            ),
    {
        let mut i: usize = 0;
        proof {
            assert(detail_views(details_list@).take(0) =~= Seq::<(Seq<char>, Seq<char>)>::empty());
        }
        while i < details_list.len()
            invariant
                i <= details_list@.len(),
                self.wf(),
                self.names_view() == puts_names(
                    old(self).names_view(),
                    detail_views(details_list@).take(i as int),
                ),
                self.ids_view() == puts_ids(
                    old(self).ids_view(),
                    detail_views(details_list@).take(i as int),
                ),
            decreases details_list@.len() - i,
        {
            let ghost pref = detail_views(details_list@).take(i as int);
            let d = &details_list[i];
            self.put_one(d);
            proof {
                let dv = detail_views(details_list@)[i as int];
                lemma_puts_names_snoc(old(self).names_view(), pref, dv);
                lemma_puts_ids_snoc(old(self).ids_view(), pref, dv);
                assert(detail_views(details_list@).take(i + 1 as int) =~= pref.push(dv));
            }
            i = i + 1;
        }
        proof {
            assert(detail_views(details_list@).take(details_list@.len() as int) =~= detail_views(
                details_list@,
            ));
        }
    }

    /// Re-index one user.
    fn put_one(&mut self, d: &UserDetails)
        requires
            old(self).wf(),
        ensures
            final(self).wf(),
            final(self).names_view() == put_one_names(old(self).names_view(), d.id@, d.name@),
            final(self).ids_view() == put_one_ids(old(self).ids_view(), d.id@, d.name@),
    {
        let ghost names0 = self.names_view();
        let ghost ids0 = self.ids_view();
        self.remove_user(d.id.as_str());
        proof {
            lemma_remove_id_distinct(names0, d.id@);
            crate::sets::lemma_remove_value_members(ids0, d.id@);
        }
        if !crate::text::str_eq(d.name.as_str(), "[DELETED]") {
            let folded = crate::text::fold_lowercase(d.name.as_str());
            let ghost cleared = self.names_view();
            let ghost ids_cleared = self.ids_view();
            self.names.push((folded, d.id.clone()));
            self.ids.push(d.id.clone());
            proof {
                assert(self.names_view() =~= cleared.push((lower_of(d.name@), d.id@)));
                assert(self.ids_view() =~= ids_cleared.push(d.id@));
                assert(distinct_ids(self.names_view())) by {
                    let t = self.names_view();
                    assert forall|a: int, b: int|
                        #![trigger t[a].1, t[b].1]
                        0 <= a < b < t.len() implies t[a].1 != t[b].1 by {
                        if b == t.len() - 1 {
                            assert(t[a] == cleared[a]);
                            assert(cleared[a].1 != d.id@);
                        } else {
                            assert(t[a] == cleared[a]);
                            assert(t[b] == cleared[b]);
                        }
                    }
                }
                assert(nodup(self.ids_view())) by {
                    let t = self.ids_view();
                    assert forall|a: int, b: int| 0 <= a < b < t.len() implies t[a] != t[b] by {
                        if b == t.len() - 1 {
                            assert(t[a] == ids_cleared[a]);
                            assert(!ids_cleared.contains(d.id@));
                        } else {
                            assert(t[a] == ids_cleared[a]);
                            assert(t[b] == ids_cleared[b]);
                        }
                    }
                }
            }
        }
    }

    /// Retire every entry of one user from every search family; a later
    /// prefix search never returns the user again.
    pub fn delete_from_index(&mut self, user_id: &str)
        requires
            old(self).wf(),
        ensures
            final(self).wf(),
            final(self).names_view() == remove_id(old(self).names_view(), user_id@),
            final(self).ids_view() == remove_value(old(self).ids_view(), user_id@),
            forall|j: int|
                0 <= j < final(self).names_view().len()
                    ==> (#[trigger] final(self).names_view()[j]).1 != user_id@,
            !final(self).ids_view().contains(user_id@),
    {
        let ghost names0 = self.names_view();
        let ghost ids0 = self.ids_view();
        self.remove_user(user_id);
        proof {
            lemma_remove_id_distinct(names0, user_id@);
            crate::sets::lemma_remove_value_members(ids0, user_id@);
        }
    }

    /// Case-folded prefix search over the name index: the matching entries
    /// in index order, paged by `skip` and `limit`.  `None` when the page is
    /// empty.
    pub fn get_from_index_name(&self, name_prefix: &str, skip: Option<usize>, limit: Option<usize>) -> (r:
        Option<Vec<(String, String)>>)
        ensures
            lower_of(lower_of(name_prefix@)) == lower_of(name_prefix@),
            ({
                let ms = matches_of(self.names_view(), lower_of(name_prefix@));
                let window = page_of(ms, skip, limit);
                match r {
                    Some(v) => pair_views(v@) == window && window.len() > 0,
                    None => window.len() == 0,
                }
            }),
    {
        let folded = crate::text::fold_lowercase(name_prefix);
        let ghost p = lower_of(name_prefix@);
        let mut ms: Vec<(String, String)> = Vec::new();
        let mut i: usize = 0;
        proof {
            assert(pair_views(ms@) =~= matches_of(self.names_view().take(0), p)) by {
                assert(self.names_view().take(0) =~= Seq::<(Seq<char>, Seq<char>)>::empty());
            }
        }
        while i < self.names.len()
            invariant
                i <= self.names@.len(),
                pair_views(ms@) == matches_of(self.names_view().take(i as int), p),
                folded@ == p,
            decreases self.names@.len() - i,
        {
            let ghost pre = pair_views(ms@);
            let hit = crate::text::str_starts_with(self.names[i].0.as_str(), folded.as_str());
            if hit {
                ms.push((self.names[i].0.clone(), self.names[i].1.clone()));
            }
            proof {
                let e = self.names_view()[i as int];
                assert(self.names_view().take(i + 1 as int) =~= self.names_view().take(
                    i as int,
                ).push(e));
                lemma_matches_snoc(self.names_view().take(i as int), p, e);
                if hit {
                    assert(pair_views(ms@) =~= pre.push(e));
                }
            }
            i = i + 1;
        }
        proof {
            assert(self.names_view().take(self.names@.len() as int) =~= self.names_view());
        }
        page_pairs(ms, skip, limit)
    }

    /// Case-folded prefix search over the id index, paged the same way.
    pub fn get_from_index_id(&self, id_prefix: &str, skip: Option<usize>, limit: Option<usize>) -> (r:
        Option<Vec<String>>)
        ensures
            lower_of(lower_of(id_prefix@)) == lower_of(id_prefix@),
            ({
                let ms = id_matches_of(self.ids_view(), lower_of(id_prefix@));
                let window = page_ids(ms, skip, limit);
                match r {
                    Some(v) => crate::lists::views_of(v@) == window && window.len() > 0,
                    None => window.len() == 0,
                }
            }),
    {
        let folded = crate::text::fold_lowercase(id_prefix);
        let ghost p = lower_of(id_prefix@);
        let mut ms: Vec<String> = Vec::new();
        let mut i: usize = 0;
        proof {
            assert(crate::lists::views_of(ms@) =~= id_matches_of(self.ids_view().take(0), p)) by {
                assert(self.ids_view().take(0) =~= Seq::<Seq<char>>::empty());
            }
        }
        while i < self.ids.len()
            invariant
                i <= self.ids@.len(),
                crate::lists::views_of(ms@) == id_matches_of(self.ids_view().take(i as int), p),
                folded@ == p,
            decreases self.ids@.len() - i,
        {
            let ghost pre = crate::lists::views_of(ms@);
            let hit = crate::text::str_starts_with(self.ids[i].as_str(), folded.as_str());
            if hit {
                ms.push(self.ids[i].clone());
            }
            proof {
                let e = self.ids_view()[i as int];
                assert(self.ids_view().take(i + 1 as int) =~= self.ids_view().take(i as int).push(
                    e,
                ));
                lemma_id_matches_snoc(self.ids_view().take(i as int), p, e);
                if hit {
                    assert(crate::lists::views_of(ms@) =~= pre.push(e));
                }
            }
            i = i + 1;
        }
        proof {
            assert(self.ids_view().take(self.ids@.len() as int) =~= self.ids_view());
        }
        let skip_n: usize = match skip {
            Some(n) => n,
            None => 0,
        };
        if skip_n >= ms.len() {
            return None;
        }
        let end: usize = match limit {
            Some(l) => {
                if l < ms.len() - skip_n {
                    skip_n + l
                } else {
                    ms.len()
                }
            },
            None => ms.len(),
        };
        if end == skip_n {
            return None;
        }
        let mut out: Vec<String> = Vec::new();
        let mut j: usize = skip_n;
        while j < end
            invariant
                skip_n <= j <= end <= ms@.len(),
                crate::lists::views_of(out@) == crate::lists::views_of(ms@).subrange(
                    skip_n as int,
                    j as int,
                ),
            decreases end - j,
        {
            let ghost pre = crate::lists::views_of(out@);
            out.push(ms[j].clone());
            proof {
                assert(crate::lists::views_of(out@) =~= pre.push(ms@[j as int]@));
                assert(crate::lists::views_of(ms@).subrange(skip_n as int, j + 1 as int)
                    =~= crate::lists::views_of(ms@).subrange(skip_n as int, j as int).push(
                    crate::lists::views_of(ms@)[j as int],
                ));
            }
            j = j + 1;
        }
        Some(out)
    }

    /// Search users by name prefix; the answer lists the matching users'
    /// ids, in index order, paged by `skip` and `limit`.
    pub fn get_by_name(&self, name_prefix: &str, skip: Option<usize>, limit: Option<usize>) -> (r:
        Option<UserSearch>)
        ensures
            lower_of(lower_of(name_prefix@)) == lower_of(name_prefix@),
            ({
                let ms = matches_of(self.names_view(), lower_of(name_prefix@));
                let window = page_of(ms, skip, limit);
                match r {
                    Some(us) => crate::lists::views_of(us.0@) == window.map_values(
                        |e: (Seq<char>, Seq<char>)| e.1,
                    ) && window.len() > 0,
                    None => window.len() == 0,
                }
            }),
    {
        let elements = self.get_from_index_name(name_prefix, skip, limit);
        match elements {
            Some(v) => {
                let mut ids: Vec<String> = Vec::new();
                let mut i: usize = 0;
                while i < v.len()
                    invariant
                        i <= v@.len(),
                        crate::lists::views_of(ids@) == pair_views(v@).take(i as int).map_values(
                            |e: (Seq<char>, Seq<char>)| e.1,
                        ),
                    decreases v@.len() - i,
                {
                    let ghost pre = crate::lists::views_of(ids@);
                    ids.push(v[i].1.clone());
                    proof {
                        assert(crate::lists::views_of(ids@) =~= pre.push(pair_views(v@)[i as int].1));
                        assert(pair_views(v@).take(i + 1 as int).map_values(
                            |e: (Seq<char>, Seq<char>)| e.1,
                        ) =~= pair_views(v@).take(i as int).map_values(
                            |e: (Seq<char>, Seq<char>)| e.1,
                        ).push(pair_views(v@)[i as int].1));
                    }
                    i = i + 1;
                }
                proof {
                    assert(pair_views(v@).take(v@.len() as int) =~= pair_views(v@));
                }
                Some(UserSearch(ids))
            },
            None => None,
        }
    }

    /// Search users by id prefix; the answer lists the matching ids.
    pub fn get_by_id(&self, id_prefix: &str, skip: Option<usize>, limit: Option<usize>) -> (r:
        Option<UserSearch>)
        ensures
            lower_of(lower_of(id_prefix@)) == lower_of(id_prefix@),
            ({
                let ms = id_matches_of(self.ids_view(), lower_of(id_prefix@));
                let window = page_ids(ms, skip, limit);
                match r {
                    Some(us) => crate::lists::views_of(us.0@) == window && window.len() > 0,
                    None => window.len() == 0,
                }
            }),
    {
        match self.get_from_index_id(id_prefix, skip, limit) {
            Some(v) => Some(UserSearch(v)),
            None => None,
        }
    }
}

/// The `skip`/`limit` page of a match sequence.
pub open spec fn page_of(
    ms: Seq<(Seq<char>, Seq<char>)>,
    skip: Option<usize>,
    limit: Option<usize>,
) -> Seq<(Seq<char>, Seq<char>)> {
    let s = if skip is Some {
        skip->0 as int
    } else {
        0
    };
    if s >= ms.len() {
        Seq::empty()
    } else if limit is Some && s + limit->0 < ms.len() {
        ms.subrange(s, s + limit->0)
    } else {
        ms.subrange(s, ms.len() as int)
    }
}

/// The `skip`/`limit` page of an id match sequence.
pub open spec fn page_ids(ms: Seq<Seq<char>>, skip: Option<usize>, limit: Option<usize>) -> Seq<
    Seq<char>,
> {
    let s = if skip is Some {
        skip->0 as int
    } else {
        0
    };
    if s >= ms.len() {
        Seq::empty()
    } else if limit is Some && s + limit->0 < ms.len() {
        ms.subrange(s, s + limit->0)
    } else {
        ms.subrange(s, ms.len() as int)
    }
}

/// Page a collected match list; `None` when the page is empty.
fn page_pairs(ms: Vec<(String, String)>, skip: Option<usize>, limit: Option<usize>) -> (r: Option<
    Vec<(String, String)>,
>)
    ensures
        ({
            let window = page_of(pair_views(ms@), skip, limit);
            match r {
                Some(v) => pair_views(v@) == window && window.len() > 0,
                None => window.len() == 0,
            }
        }),
{
    let skip_n: usize = match skip {
        Some(n) => n,
        None => 0,
    };
    if skip_n >= ms.len() {
        return None;
    }
    let end: usize = match limit {
        Some(l) => {
            if l < ms.len() - skip_n {
                skip_n + l
            } else {
                ms.len()
            }
        },
        None => ms.len(),
    };
    if end == skip_n {
        return None;
    }
    let mut out: Vec<(String, String)> = Vec::new();
    let mut j: usize = skip_n;
    while j < end
        invariant
            skip_n <= j <= end <= ms@.len(),
            pair_views(out@) == pair_views(ms@).subrange(skip_n as int, j as int),
        decreases end - j,
    {
        let ghost pre = pair_views(out@);
        out.push((ms[j].0.clone(), ms[j].1.clone()));
        proof {
            assert(pair_views(out@) =~= pre.push(pair_views(ms@)[j as int]));
            assert(pair_views(ms@).subrange(skip_n as int, j + 1 as int) =~= pair_views(
                ms@,
            ).subrange(skip_n as int, j as int).push(pair_views(ms@)[j as int]));
        }
        j = j + 1;
    }
    Some(out)
}

/// Several users cleared in turn from the name index.
pub open spec fn clear_ids(s: Seq<(Seq<char>, Seq<char>)>, ids: Seq<Seq<char>>) -> Seq<
    (Seq<char>, Seq<char>),
>
    decreases ids.len(),
{
    if ids.len() == 0 {
        s
    } else {
        clear_ids(remove_id(s, ids[0]), ids.drop_first())
    }
}

/// Several users cleared in turn from the id index.
pub open spec fn clear_values(s: Seq<Seq<char>>, ids: Seq<Seq<char>>) -> Seq<Seq<char>>
    decreases ids.len(),
{
    if ids.len() == 0 {
        s
    } else {
        clear_values(remove_value(s, ids[0]), ids.drop_first())
    }
}

proof fn lemma_clear_ids_snoc(s: Seq<(Seq<char>, Seq<char>)>, ids: Seq<Seq<char>>, id: Seq<char>)
    ensures
        clear_ids(s, ids.push(id)) == remove_id(clear_ids(s, ids), id),
    decreases ids.len(),
{
    if ids.len() == 0 {
        let ids1 = ids.push(id);
        assert(ids1[0] == id);
        assert(ids1.drop_first() =~= ids);
        assert(clear_ids(s, ids) == s);
        assert(clear_ids(s, ids1) == clear_ids(remove_id(s, id), ids));
        assert(clear_ids(remove_id(s, id), ids) == remove_id(s, id));
    } else {
        assert(ids.push(id)[0] == ids[0]);
        assert(ids.push(id).drop_first() =~= ids.drop_first().push(id));
        assert(clear_ids(s, ids.push(id)) == clear_ids(
            remove_id(s, ids[0]),
            ids.drop_first().push(id),
        ));
        assert(clear_ids(s, ids) == clear_ids(remove_id(s, ids[0]), ids.drop_first()));
        lemma_clear_ids_snoc(remove_id(s, ids[0]), ids.drop_first(), id);
    }
}

proof fn lemma_clear_values_snoc(s: Seq<Seq<char>>, ids: Seq<Seq<char>>, id: Seq<char>)
    ensures
        clear_values(s, ids.push(id)) == remove_value(clear_values(s, ids), id),
    decreases ids.len(),
{
    if ids.len() == 0 {
        let ids1 = ids.push(id);
        assert(ids1[0] == id);
        assert(ids1.drop_first() =~= ids);
        assert(clear_values(s, ids) == s);
        assert(clear_values(s, ids1) == clear_values(remove_value(s, id), ids));
        assert(clear_values(remove_value(s, id), ids) == remove_value(s, id));
    } else {
        assert(ids.push(id)[0] == ids[0]);
        assert(ids.push(id).drop_first() =~= ids.drop_first().push(id));
        assert(clear_values(s, ids.push(id)) == clear_values(
            remove_value(s, ids[0]),
            ids.drop_first().push(id),
        ));
        assert(clear_values(s, ids) == clear_values(remove_value(s, ids[0]), ids.drop_first()));
        lemma_clear_values_snoc(remove_value(s, ids[0]), ids.drop_first(), id);
    }
}

/// Rename keeps exactly one entry: re-indexing a user under a new name,
/// after any earlier re-indexing under an old name, leaves the name index
/// with exactly one entry for the user — the folded new name — and none for
/// the old one.
pub proof fn lemma_rename_keeps_one_entry(
    s: Seq<(Seq<char>, Seq<char>)>,
    id: Seq<char>,
    old_name: Seq<char>,
    new_name: Seq<char>,
)
    requires
        distinct_ids(s),
        new_name != deleted_name(),
    ensures
        ({
            let renamed = put_one_names(put_one_names(s, id, old_name), id, new_name);
            &&& renamed.contains((lower_of(new_name), id))
            &&& forall|e: (Seq<char>, Seq<char>)|
                #[trigger] renamed.contains(e) && e.1 == id ==> e == (lower_of(new_name), id)
            &&& distinct_ids(renamed)
        }),
{
    let first = put_one_names(s, id, old_name);
    lemma_remove_id_distinct(s, id);
    if old_name != deleted_name() {
        let cleared = remove_id(s, id);
        assert(distinct_ids(first)) by {
            let t = first;
            assert forall|a: int, b: int|
                #![trigger t[a].1, t[b].1]
                0 <= a < b < t.len() implies t[a].1 != t[b].1 by {
                if b == t.len() - 1 {
                    assert(t[a] == cleared[a]);
                    assert(cleared[a].1 != id);
                } else {
                    assert(t[a] == cleared[a]);
                    assert(t[b] == cleared[b]);
                }
            }
        }
    }
    lemma_remove_id_distinct(first, id);
    let cleared2 = remove_id(first, id);
    let renamed = cleared2.push((lower_of(new_name), id));
    assert(renamed[renamed.len() - 1] == (lower_of(new_name), id));
    assert forall|e: (Seq<char>, Seq<char>)| #[trigger] renamed.contains(e) && e.1 == id implies e
        == (lower_of(new_name), id) by {
        let i = choose|i: int| 0 <= i < renamed.len() && renamed[i] == e;
        if i < cleared2.len() {
            assert(cleared2[i].1 != id);
        }
    }
    assert(distinct_ids(renamed)) by {
        assert forall|a: int, b: int|
            #![trigger renamed[a].1, renamed[b].1]
            0 <= a < b < renamed.len() implies renamed[a].1 != renamed[b].1 by {
            if b == renamed.len() - 1 {
                assert(renamed[a] == cleared2[a]);
                assert(cleared2[a].1 != id);
            } else {
                assert(renamed[a] == cleared2[a]);
                assert(renamed[b] == cleared2[b]);
            }
        }
    }
}

/// Case-normalized queries: the index and the query fold through the same
/// case mapping, and folding a folded prefix changes nothing, so a search
/// with a prefix and a search with its folded form match exactly the same
/// entries.
pub proof fn lemma_query_case_normalized(
    nv: Seq<(Seq<char>, Seq<char>)>,
    p: Seq<char>,
    folded: Seq<char>,
)
    requires
        folded == lower_of(p),
        lower_of(folded) == folded,
    ensures
        matches_of(nv, lower_of(folded)) == matches_of(nv, lower_of(p)),
{
}

/// Deletion leaves no orphan: after a user is retired from the index, no
/// prefix search, for any prefix, returns an entry carrying the user's id.
pub proof fn lemma_delete_no_orphan(s: Seq<(Seq<char>, Seq<char>)>, id: Seq<char>, p: Seq<char>)
    ensures
        forall|e: (Seq<char>, Seq<char>)|
            #[trigger] matches_of(remove_id(s, id), p).contains(e) ==> e.1 != id,
{
    lemma_remove_id_members(s, id);
    lemma_matches_members(remove_id(s, id), p);
}

} // verus!
