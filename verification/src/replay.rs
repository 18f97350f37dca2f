//! The laws of at-least-once delivery: replaying an already-applied cache
//! primitive changes nothing.
//!
//! A crash before the cursor is persisted makes the processor reprocess
//! lines whose effects are already in the cache.  Each handler builds on
//! primitives whose second application is provably a no-op: a deduplicated
//! append adds nothing it already added, a membership insertion or removal
//! reports "unchanged" and the guarded counters stay put, and an atomic
//! create-if-absent leaves an existing record untouched (the race law in
//! [`crate::kv`] covers that one).  Replaying a feed suffix therefore
//! leaves every derived count and index as one clean run leaves them.

use crate::handlers::{bookmark_applied, follow_applied, mute_applied, post_del_applied, post_put_applied, set_added, set_removed, tag_del_applied, tag_post_del_applied, tag_post_put_applied, tag_put_applied, user_del_applied, user_put_applied};
use crate::lists::{dedup_append, lemma_dedup_append_members};
use crate::records::UserDetails;
use crate::search::{put_one_ids, put_one_names, remove_id};
use crate::sets::{remove_value, SetStore};
use crate::store::{key2, CacheStore};
use vstd::prelude::*;

verus! {

/// Clearing a user from a name index that holds no entry of the user
/// changes nothing.
proof fn lemma_remove_id_of_free(s: Seq<(Seq<char>, Seq<char>)>, id: Seq<char>)
    requires
        forall|j: int| 0 <= j < s.len() ==> (#[trigger] s[j]).1 != id,
    ensures
        remove_id(s, id) == s,
    decreases s.len(),
{
    if s.len() > 0 {
        assert(forall|j: int|
            0 <= j < s.drop_first().len() ==> (#[trigger] s.drop_first()[j]) == s[j + 1]);
        lemma_remove_id_of_free(s.drop_first(), id);
        assert(seq![s[0]] + s.drop_first() =~= s);
    }
}

/// Replaying a re-indexing of one user is a no-op on the name index.
pub proof fn lemma_put_one_names_replay(s: Seq<(Seq<char>, Seq<char>)>, id: Seq<char>, name: Seq<char>)
    ensures
        put_one_names(put_one_names(s, id, name), id, name) == put_one_names(s, id, name),
{
    let cleared = remove_id(s, id);
    crate::search::lemma_remove_id_members(s, id);
    assert forall|j: int| 0 <= j < cleared.len() implies (#[trigger] cleared[j]).1 != id by {
        assert(cleared.contains(cleared[j]));
    }
    if name == crate::search::deleted_name() {
        lemma_remove_id_of_free(cleared, id);
    } else {
        let once = cleared.push((crate::text::lower_of(name), id));
        assert(remove_id(once, id) =~= cleared) by {
            crate::search::lemma_remove_id_snoc(cleared, id, (crate::text::lower_of(name), id));
            lemma_remove_id_of_free(cleared, id);
        }
    }
}

/// Replaying a re-indexing of one user is a no-op on the id index.
pub proof fn lemma_put_one_ids_replay(s: Seq<Seq<char>>, id: Seq<char>, name: Seq<char>)
    requires
        crate::lists::nodup(s),
    ensures
        put_one_ids(put_one_ids(s, id, name), id, name) == put_one_ids(s, id, name),
{
    let cleared = remove_value(s, id);
    crate::sets::lemma_remove_value_members(s, id);
    assert(!cleared.contains(id));
    if name == crate::search::deleted_name() {
        crate::sets::lemma_remove_value_absent(cleared, id);
    } else {
        let once = cleared.push(id);
        assert(once[cleared.len() as int] == id);
        assert forall|j: int| 0 <= j < cleared.len() implies once[j] != id by {
            assert(once[j] == cleared[j]);
            assert(cleared.contains(cleared[j]));
        }
        crate::sets::lemma_remove_value_at(once, id, cleared.len() as int);
        assert(once.remove(cleared.len() as int) =~= cleared);
    }
}

/// A deduplicated append absorbs values already present.
proof fn lemma_dedup_append_absorbed(cur: Seq<Seq<char>>, vs: Seq<Seq<char>>)
    requires
        forall|j: int| 0 <= j < vs.len() ==> cur.contains(#[trigger] vs[j]),
    ensures
        dedup_append(cur, vs) == cur,
    decreases vs.len(),
{
    if vs.len() > 0 {
        assert(cur.contains(vs[0]));
        assert(forall|j: int|
            0 <= j < vs.drop_first().len() ==> cur.contains(#[trigger] vs.drop_first()[j])) by {
            assert(forall|j: int|
                0 <= j < vs.drop_first().len() ==> #[trigger] vs.drop_first()[j] == vs[j + 1]);
        }
        lemma_dedup_append_absorbed(cur, vs.drop_first());
    }
}

/// Replaying a deduplicated append is a no-op: appending the same values a
/// second time leaves the list exactly as the first append left it.
pub proof fn lemma_dedup_append_replay(cur: Seq<Seq<char>>, vs: Seq<Seq<char>>)
    ensures
        dedup_append(dedup_append(cur, vs), vs) == dedup_append(cur, vs),
{
    let once = dedup_append(cur, vs);
    assert forall|j: int| 0 <= j < vs.len() implies once.contains(#[trigger] vs[j]) by {
        lemma_dedup_append_members(cur, vs, vs[j]);
    }
    lemma_dedup_append_absorbed(once, vs);
}

/// Replaying a membership insertion is a no-op: after one `add`, a second
/// `add` of the same member reports "already present" and moves no set.
pub proof fn lemma_set_add_replay(a: SetStore, b: SetStore, c: SetStore, k: Seq<char>, m: Seq<char>)
    requires
        set_added(a, b, k, m),
        set_added(b, c, k, m),
    ensures
        forall|q: Seq<char>| #[trigger] c.members(q) == b.members(q),
{
    assert(b.members(k).contains(m)) by {
        if !a.members(k).contains(m) {
            assert(b.members(k) == a.members(k).push(m));
            assert(b.members(k)[a.members(k).len() as int] == m);
        }
    }
    assert forall|q: Seq<char>| #[trigger] c.members(q) == b.members(q) by {
        if q != k {
        }
    }
}

/// Replaying a membership removal is a no-op: after one `remove_member`, a
/// second removal of the same member finds nothing and moves no set.
pub proof fn lemma_set_remove_replay(
    a: SetStore,
    b: SetStore,
    c: SetStore,
    k: Seq<char>,
    m: Seq<char>,
)
    requires
        a.wf(),
        set_removed(a, b, k, m),
        set_removed(b, c, k, m),
    ensures
        forall|q: Seq<char>| #[trigger] c.members(q) == b.members(q),
{
    a.lemma_wf_members_nodup(k);
    crate::sets::lemma_remove_value_members(a.members(k), m);
    assert(!b.members(k).contains(m));
    crate::sets::lemma_remove_value_absent(b.members(k), m);
    assert forall|q: Seq<char>| #[trigger] c.members(q) == b.members(q) by {
        if q != k {
        }
    }
}

/// Replaying a user creation event changes nothing observable: the counts
/// record stays as the first application left it, the cached details keep
/// the same fields, and the search index is re-ranked to itself.
pub proof fn lemma_user_put_replay(
    a: CacheStore,
    b: CacheStore,
    c: CacheStore,
    user: Seq<char>,
    d: UserDetails,
)
    requires
        a.search.wf(),
        user_put_applied(a, b, user, d),
        user_put_applied(b, c, user, d),
    ensures
        forall|q: Seq<char>| #[trigger] c.user_counts.spec_get(q) == b.user_counts.spec_get(q),
        forall|q: Seq<char>|
            q != user ==> #[trigger] c.user_details.spec_get(q) == b.user_details.spec_get(q),
        match (c.user_details.spec_get(user), b.user_details.spec_get(user)) {
            (Some(x), Some(y)) => x.id@ == y.id@ && x.name@ == y.name@,
            _ => false,
        },
        c.search.names_view() == b.search.names_view(),
        c.search.ids_view() == b.search.ids_view(),
{
    assert(b.user_counts.contains_key(user));
    lemma_put_one_names_replay(a.search.names_view(), user, d.name@);
    lemma_put_one_ids_replay(a.search.ids_view(), user, d.name@);
}

/// Replaying a user deletion changes nothing observable.
pub proof fn lemma_user_del_replay(a: CacheStore, b: CacheStore, c: CacheStore, user: Seq<char>)
    requires
        a.search.wf(),
        user_del_applied(a, b, user),
        user_del_applied(b, c, user),
    ensures
        forall|q: Seq<char>| #[trigger] c.user_counts.spec_get(q) == b.user_counts.spec_get(q),
        forall|q: Seq<char>| #[trigger] c.user_details.spec_get(q) == b.user_details.spec_get(q),
        c.search.names_view() == b.search.names_view(),
        c.search.ids_view() == b.search.ids_view(),
{
    crate::search::lemma_remove_id_members(a.search.names_view(), user);
    let cleared = remove_id(a.search.names_view(), user);
    assert forall|j: int| 0 <= j < cleared.len() implies (#[trigger] cleared[j]).1 != user by {
        assert(cleared.contains(cleared[j]));
    }
    lemma_remove_id_of_free(cleared, user);
    crate::sets::lemma_remove_value_members(a.search.ids_view(), user);
    crate::sets::lemma_remove_value_absent(remove_value(a.search.ids_view(), user), user);
}

/// Replaying a follow event changes nothing observable: the second pass
/// finds the membership already in its final shape, so the sets stay put
/// and no counter moves twice.
pub proof fn lemma_follow_replay(
    a: CacheStore,
    b: CacheStore,
    c: CacheStore,
    user: Seq<char>,
    target: Seq<char>,
    put: bool,
)
    requires
        a.following.wf(),
        a.followers.wf(),
        follow_applied(a, b, user, target, put),
        follow_applied(b, c, user, target, put),
    ensures
        forall|q: Seq<char>| #[trigger] c.following.members(q) == b.following.members(q),
        forall|q: Seq<char>| #[trigger] c.followers.members(q) == b.followers.members(q),
        c.user_counts == b.user_counts,
{
    if put {
        assert(b.following.members(user).contains(target)) by {
            if !a.following.members(user).contains(target) {
                assert(b.following.members(user) == a.following.members(user).push(target));
                assert(b.following.members(user)[a.following.members(user).len() as int]
                    == target);
            }
        }
        lemma_set_add_replay(a.following, b.following, c.following, user, target);
        lemma_set_add_replay(a.followers, b.followers, c.followers, target, user);
    } else {
        a.following.lemma_wf_members_nodup(user);
        crate::sets::lemma_remove_value_members(a.following.members(user), target);
        assert(!b.following.members(user).contains(target));
        lemma_set_remove_replay(a.following, b.following, c.following, user, target);
        assert(set_removed(a.followers, b.followers, target, user));
        lemma_set_remove_replay(a.followers, b.followers, c.followers, target, user);
    }
}

/// Replaying an allowed tag event changes nothing observable: the tagger is
/// already in the taggers set, so neither ranking gains a second point and
/// the target's counter stays put.
pub proof fn lemma_tag_put_replay(
    a: CacheStore,
    b: CacheStore,
    c: CacheStore,
    user: Seq<char>,
    target: Seq<char>,
    label: Seq<char>,
)
    requires
        tag_put_applied(a, b, user, target, label),
        tag_put_applied(b, c, user, target, label),
    ensures
        forall|q: Seq<char>| #[trigger] c.taggers.members(q) == b.taggers.members(q),
        c.user_tags == b.user_tags,
        c.tag_search == b.tag_search,
        c.user_counts == b.user_counts,
{
    let tk = key2(target, label);
    assert(b.taggers.members(tk).contains(user)) by {
        if !a.taggers.members(tk).contains(user) {
            assert(b.taggers.members(tk) == a.taggers.members(tk).push(user));
            assert(b.taggers.members(tk)[a.taggers.members(tk).len() as int] == user);
        }
    }
    lemma_set_add_replay(a.taggers, b.taggers, c.taggers, tk, user);
}

/// Replaying a tag retirement changes nothing observable: the tagger is
/// already out of the taggers set, so neither ranking loses a second point
/// and the target's counter stays put.
pub proof fn lemma_tag_del_replay(
    a: CacheStore,
    b: CacheStore,
    c: CacheStore,
    user: Seq<char>,
    target: Seq<char>,
    label: Seq<char>,
)
    requires
        a.taggers.wf(),
        tag_del_applied(a, b, user, target, label),
        tag_del_applied(b, c, user, target, label),
    ensures
        forall|q: Seq<char>| #[trigger] c.taggers.members(q) == b.taggers.members(q),
        c.user_tags == b.user_tags,
        c.tag_search == b.tag_search,
        c.user_counts == b.user_counts,
{
    let tk = key2(target, label);
    a.taggers.lemma_wf_members_nodup(tk);
    crate::sets::lemma_remove_value_members(a.taggers.members(tk), user);
    assert(!b.taggers.members(tk).contains(user));
    lemma_set_remove_replay(a.taggers, b.taggers, c.taggers, tk, user);
}

/// Replaying an allowed tag event on a post changes nothing observable.
pub proof fn lemma_tag_post_put_replay(
    a: CacheStore,
    b: CacheStore,
    c: CacheStore,
    user: Seq<char>,
    pk: Seq<char>,
    label: Seq<char>,
)
    requires
        tag_post_put_applied(a, b, user, pk, label),
        tag_post_put_applied(b, c, user, pk, label),
    ensures
        forall|q: Seq<char>| #[trigger] c.taggers.members(q) == b.taggers.members(q),
        c.post_tags == b.post_tags,
        c.tag_search == b.tag_search,
        c.post_counts == b.post_counts,
{
    let tk = key2(pk, label);
    assert(b.taggers.members(tk).contains(user)) by {
        if !a.taggers.members(tk).contains(user) {
            assert(b.taggers.members(tk) == a.taggers.members(tk).push(user));
            assert(b.taggers.members(tk)[a.taggers.members(tk).len() as int] == user);
        }
    }
    lemma_set_add_replay(a.taggers, b.taggers, c.taggers, tk, user);
}

/// Replaying a tag retirement on a post changes nothing observable.
pub proof fn lemma_tag_post_del_replay(
    a: CacheStore,
    b: CacheStore,
    c: CacheStore,
    user: Seq<char>,
    pk: Seq<char>,
    label: Seq<char>,
)
    requires
        a.taggers.wf(),
        tag_post_del_applied(a, b, user, pk, label),
        tag_post_del_applied(b, c, user, pk, label),
    ensures
        forall|q: Seq<char>| #[trigger] c.taggers.members(q) == b.taggers.members(q),
        c.post_tags == b.post_tags,
        c.tag_search == b.tag_search,
        c.post_counts == b.post_counts,
{
    let tk = key2(pk, label);
    a.taggers.lemma_wf_members_nodup(tk);
    crate::sets::lemma_remove_value_members(a.taggers.members(tk), user);
    assert(!b.taggers.members(tk).contains(user));
    lemma_set_remove_replay(a.taggers, b.taggers, c.taggers, tk, user);
}

/// Replaying a post creation changes nothing observable: the counts record
/// stays as the winning creation left it.
pub proof fn lemma_post_put_replay(
    a: CacheStore,
    b: CacheStore,
    c: CacheStore,
    user: Seq<char>,
    pid: Seq<char>,
)
    requires
        post_put_applied(a, b, user, pid),
        post_put_applied(b, c, user, pid),
    ensures
        forall|q: Seq<char>| #[trigger] c.post_counts.spec_get(q) == b.post_counts.spec_get(q),
        c.post_details == b.post_details,
        c.post_relationships == b.post_relationships,
        c.bookmarks == b.bookmarks,
{
    assert(b.post_counts.contains_key(key2(user, pid)));
}

/// Replaying a post deletion changes nothing observable: the records are
/// already gone.
pub proof fn lemma_post_del_replay(
    a: CacheStore,
    b: CacheStore,
    c: CacheStore,
    user: Seq<char>,
    pid: Seq<char>,
)
    requires
        post_del_applied(a, b, user, pid),
        post_del_applied(b, c, user, pid),
    ensures
        forall|q: Seq<char>| #[trigger] c.post_counts.spec_get(q) == b.post_counts.spec_get(q),
        forall|q: Seq<char>| #[trigger] c.post_details.spec_get(q) == b.post_details.spec_get(q),
        forall|q: Seq<char>|
            #[trigger] c.post_relationships.spec_get(q) == b.post_relationships.spec_get(q),
        c.bookmarks == b.bookmarks,
{
}

/// Replaying a mute event changes nothing observable.
pub proof fn lemma_mute_replay(
    a: CacheStore,
    b: CacheStore,
    c: CacheStore,
    user: Seq<char>,
    target: Seq<char>,
    put: bool,
)
    requires
        a.muted.wf(),
        mute_applied(a, b, user, target, put),
        mute_applied(b, c, user, target, put),
    ensures
        forall|q: Seq<char>| #[trigger] c.muted.members(q) == b.muted.members(q),
        c.following == b.following,
        c.followers == b.followers,
{
    if put {
        assert(b.muted.members(user).contains(target)) by {
            if !a.muted.members(user).contains(target) {
                assert(b.muted.members(user) == a.muted.members(user).push(target));
                assert(b.muted.members(user)[a.muted.members(user).len() as int] == target);
            }
        }
        lemma_set_add_replay(a.muted, b.muted, c.muted, user, target);
    } else {
        lemma_set_remove_replay(a.muted, b.muted, c.muted, user, target);
    }
}

/// Replaying a bookmark event changes nothing observable: the second pass
/// writes the record it already wrote, or removes what is already gone.
pub proof fn lemma_bookmark_replay(
    a: CacheStore,
    b: CacheStore,
    c: CacheStore,
    user: Seq<char>,
    bid: Seq<char>,
    put: bool,
    post_key: Seq<char>,
)
    requires
        bookmark_applied(a, b, user, bid, put, post_key),
        bookmark_applied(b, c, user, bid, put, post_key),
    ensures
        forall|q: Seq<char>|
            q != key2(post_key, user) ==> #[trigger] c.bookmarks.spec_get(q)
                == b.bookmarks.spec_get(q),
        match (c.bookmarks.spec_get(key2(post_key, user)), b.bookmarks.spec_get(key2(post_key, user))) {
            (Some(x), Some(y)) => x.id@ == y.id@,
            (None, None) => true,
            _ => false,
        },
{
}

} // verus!
