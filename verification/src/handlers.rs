//! The resource handlers: what one parsed event does to the cache.
//!
//! Each resource kind has one handler; dispatch selects it by the event's
//! kind.  Every handler is idempotent with respect to at-least-once
//! delivery: an insertion reports whether it was new and counters move only
//! then, so a replayed event changes nothing.  The exact transition of each
//! kind is a spec predicate, and [`event_step`] combines them with the
//! retry-queue bookkeeping: a missing graph record is a retryable failure,
//! a moderation rejection is a handled no-op.

use crate::events::{Event, EventError, EventView, Moderation, Resource, ResourceView};
use crate::kv::Table;
use crate::records::{Bookmark, PostCounts, UserCounts, UserDetails};
use crate::retry::{extract_retry_event_info, uri_digest, RetryKey, RetryQueue};
use crate::scores::{insert_ranked, remove_entry, score_in, ScoreSets};
use crate::search::{put_one_ids, put_one_names, remove_id};
use crate::sets::{remove_value, SetStore};
use crate::store::{global_tag_key, key2, make_key2, CacheStore, GraphStore};
use vstd::prelude::*;

verus! {

/// Saturating increment.
pub open spec fn spec_inc(x: u64) -> u64 {
    if x == u64::MAX {
        x
    } else {
        (x + 1) as u64
    }
}

/// Saturating decrement.
pub open spec fn spec_dec(x: u64) -> u64 {
    if x == 0 {
        0
    } else {
        (x - 1) as u64
    }
}

fn sat_inc(x: u64) -> (r: u64)
    ensures
        r == spec_inc(x),
{
    if x == u64::MAX {
        x
    } else {
        x + 1
    }
}

fn sat_dec(x: u64) -> (r: u64)
    ensures
        r == spec_dec(x),
{
    if x == 0 {
        0
    } else {
        x - 1
    }
}

/// The user-facing projections are untouched.
pub open spec fn same_user_proj(a: CacheStore, b: CacheStore) -> bool {
    &&& a.user_counts == b.user_counts
    &&& a.user_details == b.user_details
    &&& a.search == b.search
}

/// The post projections are untouched.
pub open spec fn same_post_proj(a: CacheStore, b: CacheStore) -> bool {
    &&& a.post_counts == b.post_counts
    &&& a.post_details == b.post_details
    &&& a.post_relationships == b.post_relationships
    &&& a.bookmarks == b.bookmarks
}

/// The relationship sets are untouched.
pub open spec fn same_follow_proj(a: CacheStore, b: CacheStore) -> bool {
    &&& a.following == b.following
    &&& a.followers == b.followers
    &&& a.muted == b.muted
}

/// The tag projections are untouched.
pub open spec fn same_tag_proj(a: CacheStore, b: CacheStore) -> bool {
    &&& a.user_tags == b.user_tags
    &&& a.post_tags == b.post_tags
    &&& a.taggers == b.taggers
    &&& a.tag_search == b.tag_search
}

/// Nothing in the cache changed.
pub open spec fn same_cache(a: CacheStore, b: CacheStore) -> bool {
    &&& same_user_proj(a, b)
    &&& same_post_proj(a, b)
    &&& same_follow_proj(a, b)
    &&& same_tag_proj(a, b)
    &&& a.cursors == b.cursors
}

/// The counts record of `id`, or the zeroed one if none exists yet.
pub open spec fn counts_or_zero(t: Table<UserCounts>, id: Seq<char>) -> UserCounts {
    match t.spec_get(id) {
        Some(c) => c,
        None => UserCounts { followers: 0, following: 0, posts: 0, tags: 0 },
    }
}

/// One membership-set addition, as `SetStore::add` states it.
pub open spec fn set_added(pre: SetStore, post: SetStore, k: Seq<char>, m: Seq<char>) -> bool {
    &&& post.wf()
    &&& post.members(k) == if pre.members(k).contains(m) {
        pre.members(k)
    } else {
        pre.members(k).push(m)
    }
    &&& forall|q: Seq<char>| q != k ==> #[trigger] post.members(q) == pre.members(q)
}

/// One membership-set removal, as `SetStore::remove_member` states it.
pub open spec fn set_removed(pre: SetStore, post: SetStore, k: Seq<char>, m: Seq<char>) -> bool {
    &&& post.wf()
    &&& post.members(k) == remove_value(pre.members(k), m)
    &&& forall|q: Seq<char>| q != k ==> #[trigger] post.members(q) == pre.members(q)
}

/// One ranking bump, as `ScoreSets::incr_score` states it: `member` moves to
/// one more than its old score (one, if unranked).
pub open spec fn score_bumped(pre: ScoreSets, post: ScoreSets, k: Seq<char>, member: Seq<char>) -> bool {
    let next = match score_in(pre.entries(k), member) {
        Some(s) => spec_inc(s),
        None => 1u64,
    };
    &&& post.wf()
    &&& post.ranking(k) == Some(insert_ranked(remove_entry(pre.entries(k), member), member, next))
    &&& forall|q: Seq<char>| q != k ==> #[trigger] post.ranking(q) == pre.ranking(q)
}

/// One ranking drop: `member` loses one point and is retired when it
/// reaches zero; an unranked member stays unranked.
pub open spec fn score_dropped(pre: ScoreSets, post: ScoreSets, k: Seq<char>, member: Seq<char>) -> bool {
    &&& post.wf()
    &&& match score_in(pre.entries(k), member) {
        None => post.ranking(k) == pre.ranking(k),
        Some(s) => if s <= 1 {
            post.ranking(k) == Some(remove_entry(pre.entries(k), member))
        } else {
            post.ranking(k) == Some(
                insert_ranked(remove_entry(pre.entries(k), member), member, (s - 1) as u64),
            )
        },
    }
    &&& forall|q: Seq<char>| q != k ==> #[trigger] post.ranking(q) == pre.ranking(q)
}

/// A retryable failure was recorded under the event's compressed key; no
/// other record moved.
pub open spec fn retry_recorded(
    pre: RetryQueue,
    post: RetryQueue,
    ev: EventView,
    err: EventError,
) -> bool {
    let key = RetryKey { put: ev.put, digest: uri_digest(ev.uri) };
    &&& post.wf()
    &&& match post.spec_get(key) {
        Some(r) => r.error_kind == err && r.uri@ == ev.uri,
        None => false,
    }
    &&& forall|q: RetryKey| q != key ==> #[trigger] post.spec_get(q) == pre.spec_get(q)
}

/// A new user: counts are created atomically exactly once, the details are
/// cached, and the search index re-ranks the user under the folded name.
pub open spec fn user_put_applied(
    pre: CacheStore,
    post: CacheStore,
    user: Seq<char>,
    d: UserDetails,
) -> bool {
    &&& post.user_counts.wf()
    &&& post.user_counts.spec_get(user) == if pre.user_counts.contains_key(user) {
        pre.user_counts.spec_get(user)
    } else {
        Some(UserCounts { followers: 0, following: 0, posts: 0, tags: 0 })
    }
    &&& forall|q: Seq<char>|
        q != user ==> #[trigger] post.user_counts.spec_get(q) == pre.user_counts.spec_get(q)
    &&& post.user_details.wf()
    &&& match post.user_details.spec_get(user) {
        Some(dd) => dd.id@ == d.id@ && dd.name@ == d.name@,
        None => false,
    }
    &&& forall|q: Seq<char>|
        q != user ==> #[trigger] post.user_details.spec_get(q) == pre.user_details.spec_get(q)
    &&& post.search.wf()
    &&& post.search.names_view() == put_one_names(pre.search.names_view(), user, d.name@)
    &&& post.search.ids_view() == put_one_ids(pre.search.ids_view(), user, d.name@)
    &&& same_post_proj(pre, post)
    &&& same_follow_proj(pre, post)
    &&& same_tag_proj(pre, post)
    &&& post.cursors == pre.cursors
}

/// A deleted user: counts and details are removed and every search entry of
/// the user is retired.
pub open spec fn user_del_applied(pre: CacheStore, post: CacheStore, user: Seq<char>) -> bool {
    &&& post.user_counts.wf()
    &&& post.user_counts.spec_get(user) is None
    &&& forall|q: Seq<char>|
        q != user ==> #[trigger] post.user_counts.spec_get(q) == pre.user_counts.spec_get(q)
    &&& post.user_details.wf()
    &&& post.user_details.spec_get(user) is None
    &&& forall|q: Seq<char>|
        q != user ==> #[trigger] post.user_details.spec_get(q) == pre.user_details.spec_get(q)
    &&& post.search.wf()
    &&& post.search.names_view() == remove_id(pre.search.names_view(), user)
    &&& post.search.ids_view() == remove_value(pre.search.ids_view(), user)
    &&& same_post_proj(pre, post)
    &&& same_follow_proj(pre, post)
    &&& same_tag_proj(pre, post)
    &&& post.cursors == pre.cursors
}

/// A new post: its counts record is created atomically exactly once.
pub open spec fn post_put_applied(
    pre: CacheStore,
    post: CacheStore,
    user: Seq<char>,
    pid: Seq<char>,
) -> bool {
    let pk = key2(user, pid);
    &&& post.post_counts.wf()
    &&& post.post_counts.spec_get(pk) == if pre.post_counts.contains_key(pk) {
        pre.post_counts.spec_get(pk)
    } else {
        Some(PostCounts { tags: 0, replies: 0, reposts: 0 })
    }
    &&& forall|q: Seq<char>|
        q != pk ==> #[trigger] post.post_counts.spec_get(q) == pre.post_counts.spec_get(q)
    &&& post.post_details == pre.post_details
    &&& post.post_relationships == pre.post_relationships
    &&& post.bookmarks == pre.bookmarks
    &&& same_user_proj(pre, post)
    &&& same_follow_proj(pre, post)
    &&& same_tag_proj(pre, post)
    &&& post.cursors == pre.cursors
}

/// A deleted post: its derived records are removed.
pub open spec fn post_del_applied(
    pre: CacheStore,
    post: CacheStore,
    user: Seq<char>,
    pid: Seq<char>,
) -> bool {
    let pk = key2(user, pid);
    &&& post.post_counts.wf()
    &&& post.post_counts.spec_get(pk) is None
    &&& forall|q: Seq<char>|
        q != pk ==> #[trigger] post.post_counts.spec_get(q) == pre.post_counts.spec_get(q)
    &&& post.post_details.wf()
    &&& post.post_details.spec_get(pk) is None
    &&& forall|q: Seq<char>|
        q != pk ==> #[trigger] post.post_details.spec_get(q) == pre.post_details.spec_get(q)
    &&& post.post_relationships.wf()
    &&& post.post_relationships.spec_get(pk) is None
    &&& forall|q: Seq<char>|
        q != pk ==> #[trigger] post.post_relationships.spec_get(q)
            == pre.post_relationships.spec_get(q)
    &&& post.bookmarks == pre.bookmarks
    &&& same_user_proj(pre, post)
    &&& same_follow_proj(pre, post)
    &&& same_tag_proj(pre, post)
    &&& post.cursors == pre.cursors
}

/// A follow change: both direction sets move together, and the two users'
/// counters move only when the membership actually changed.
pub open spec fn follow_applied(
    pre: CacheStore,
    post: CacheStore,
    user: Seq<char>,
    target: Seq<char>,
    put: bool,
) -> bool {
    let newly = if put {
        !pre.following.members(user).contains(target)
    } else {
        pre.following.members(user).contains(target)
    };
    &&& if put {
        set_added(pre.following, post.following, user, target) && set_added(
            pre.followers,
            post.followers,
            target,
            user,
        )
    } else {
        set_removed(pre.following, post.following, user, target) && set_removed(
            pre.followers,
            post.followers,
            target,
            user,
        )
    }
    &&& post.muted == pre.muted
    &&& post.user_counts.wf()
    &&& if newly {
        if user == target {
            let c = counts_or_zero(pre.user_counts, user);
            let nc = UserCounts {
                followers: if put {
                    spec_inc(c.followers)
                } else {
                    spec_dec(c.followers)
                },
                following: if put {
                    spec_inc(c.following)
                } else {
                    spec_dec(c.following)
                },
                posts: c.posts,
                tags: c.tags,
            };
            &&& post.user_counts.spec_get(user) == Some(nc)
            &&& forall|q: Seq<char>|
                q != user ==> #[trigger] post.user_counts.spec_get(q) == pre.user_counts.spec_get(
                    q,
                )
        } else {
            let cu = counts_or_zero(pre.user_counts, user);
            let ct = counts_or_zero(pre.user_counts, target);
            &&& post.user_counts.spec_get(user) == Some(
                UserCounts {
                    followers: cu.followers,
                    following: if put {
                        spec_inc(cu.following)
                    } else {
                        spec_dec(cu.following)
                    },
                    posts: cu.posts,
                    tags: cu.tags,
                },
            )
            &&& post.user_counts.spec_get(target) == Some(
                UserCounts {
                    followers: if put {
                        spec_inc(ct.followers)
                    } else {
                        spec_dec(ct.followers)
                    },
                    following: ct.following,
                    posts: ct.posts,
                    tags: ct.tags,
                },
            )
            &&& forall|q: Seq<char>|
                q != user && q != target ==> #[trigger] post.user_counts.spec_get(q)
                    == pre.user_counts.spec_get(q)
        }
    } else {
        post.user_counts == pre.user_counts
    }
    &&& post.user_details == pre.user_details
    &&& post.search == pre.search
    &&& same_post_proj(pre, post)
    &&& same_tag_proj(pre, post)
    &&& post.cursors == pre.cursors
}

/// A mute change: only the muting user's set moves.
pub open spec fn mute_applied(
    pre: CacheStore,
    post: CacheStore,
    user: Seq<char>,
    target: Seq<char>,
    put: bool,
) -> bool {
    &&& if put {
        set_added(pre.muted, post.muted, user, target)
    } else {
        set_removed(pre.muted, post.muted, user, target)
    }
    &&& post.following == pre.following
    &&& post.followers == pre.followers
    &&& same_user_proj(pre, post)
    &&& same_post_proj(pre, post)
    &&& same_tag_proj(pre, post)
    &&& post.cursors == pre.cursors
}

/// A bookmark change: the record lives under the bookmarked post's key and
/// the bookmarking viewer.
pub open spec fn bookmark_applied(
    pre: CacheStore,
    post: CacheStore,
    user: Seq<char>,
    bid: Seq<char>,
    put: bool,
    post_key: Seq<char>,
) -> bool {
    let bk = key2(post_key, user);
    &&& post.bookmarks.wf()
    &&& if put {
        match post.bookmarks.spec_get(bk) {
            Some(b) => b.id@ == bid,
            None => false,
        }
    } else {
        post.bookmarks.spec_get(bk) is None
    }
    &&& forall|q: Seq<char>|
        q != bk ==> #[trigger] post.bookmarks.spec_get(q) == pre.bookmarks.spec_get(q)
    &&& post.post_counts == pre.post_counts
    &&& post.post_details == pre.post_details
    &&& post.post_relationships == pre.post_relationships
    &&& same_user_proj(pre, post)
    &&& same_follow_proj(pre, post)
    &&& same_tag_proj(pre, post)
    &&& post.cursors == pre.cursors
}

/// A new tag on a user: the tagger joins the taggers set, and only when
/// newly so, the per-user and global label rankings gain a point and the
/// target's tag counter moves.
pub open spec fn tag_put_applied(
    pre: CacheStore,
    post: CacheStore,
    user: Seq<char>,
    target: Seq<char>,
    label: Seq<char>,
) -> bool {
    let tk = key2(target, label);
    let newly = !pre.taggers.members(tk).contains(user);
    &&& set_added(pre.taggers, post.taggers, tk, user)
    &&& if newly {
        &&& score_bumped(pre.user_tags, post.user_tags, target, label)
        &&& score_bumped(pre.tag_search, post.tag_search, global_tag_key(), label)
        &&& post.user_counts.wf()
        &&& ({
            let c = counts_or_zero(pre.user_counts, target);
            &&& post.user_counts.spec_get(target) == Some(
                UserCounts {
                    followers: c.followers,
                    following: c.following,
                    posts: c.posts,
                    tags: spec_inc(c.tags),
                },
            )
            &&& forall|q: Seq<char>|
                q != target ==> #[trigger] post.user_counts.spec_get(q)
                    == pre.user_counts.spec_get(q)
        })
    } else {
        post.user_tags == pre.user_tags && post.tag_search == pre.tag_search && post.user_counts
            == pre.user_counts
    }
    &&& post.post_tags == pre.post_tags
    &&& post.user_details == pre.user_details
    &&& post.search == pre.search
    &&& same_post_proj(pre, post)
    &&& post.following == pre.following
    &&& post.followers == pre.followers
    &&& post.muted == pre.muted
    &&& post.cursors == pre.cursors
}

/// A retired tag: the tagger leaves the taggers set, and only when it was a
/// member, the label rankings lose a point — retiring the label entirely at
/// zero, so it stops appearing in search suggestions — and the target's tag
/// counter moves.
pub open spec fn tag_del_applied(
    pre: CacheStore,
    post: CacheStore,
    user: Seq<char>,
    target: Seq<char>,
    label: Seq<char>,
) -> bool {
    let tk = key2(target, label);
    let was = pre.taggers.members(tk).contains(user);
    &&& set_removed(pre.taggers, post.taggers, tk, user)
    &&& if was {
        &&& score_dropped(pre.user_tags, post.user_tags, target, label)
        &&& score_dropped(pre.tag_search, post.tag_search, global_tag_key(), label)
        &&& post.user_counts.wf()
        &&& ({
            let c = counts_or_zero(pre.user_counts, target);
            &&& post.user_counts.spec_get(target) == Some(
                UserCounts {
                    followers: c.followers,
                    following: c.following,
                    posts: c.posts,
                    tags: spec_dec(c.tags),
                },
            )
            &&& forall|q: Seq<char>|
                q != target ==> #[trigger] post.user_counts.spec_get(q)
                    == pre.user_counts.spec_get(q)
        })
    } else {
        post.user_tags == pre.user_tags && post.tag_search == pre.tag_search && post.user_counts
            == pre.user_counts
    }
    &&& post.post_tags == pre.post_tags
    &&& post.user_details == pre.user_details
    &&& post.search == pre.search
    &&& same_post_proj(pre, post)
    &&& post.following == pre.following
    &&& post.followers == pre.followers
    &&& post.muted == pre.muted
    &&& post.cursors == pre.cursors
}

/// The counts record of post `pk`, or the zeroed one if none exists yet.
pub open spec fn pcounts_or_zero(t: Table<PostCounts>, pk: Seq<char>) -> PostCounts {
    match t.spec_get(pk) {
        Some(c) => c,
        None => PostCounts { tags: 0, replies: 0, reposts: 0 },
    }
}

/// A new tag on a post: the tagger joins the post's taggers set, and only
/// when newly so, the post's and the global label rankings gain a point and
/// the post's tag counter moves.
pub open spec fn tag_post_put_applied(
    pre: CacheStore,
    post: CacheStore,
    user: Seq<char>,
    pk: Seq<char>,
    label: Seq<char>,
) -> bool {
    let tk = key2(pk, label);
    let newly = !pre.taggers.members(tk).contains(user);
    &&& set_added(pre.taggers, post.taggers, tk, user)
    &&& if newly {
        &&& score_bumped(pre.post_tags, post.post_tags, pk, label)
        &&& score_bumped(pre.tag_search, post.tag_search, global_tag_key(), label)
        &&& post.post_counts.wf()
        &&& ({
            let c = pcounts_or_zero(pre.post_counts, pk);
            &&& post.post_counts.spec_get(pk) == Some(
                PostCounts { tags: spec_inc(c.tags), replies: c.replies, reposts: c.reposts },
            )
            &&& forall|q: Seq<char>|
                q != pk ==> #[trigger] post.post_counts.spec_get(q) == pre.post_counts.spec_get(q)
        })
    } else {
        post.post_tags == pre.post_tags && post.tag_search == pre.tag_search && post.post_counts
            == pre.post_counts
    }
    &&& post.user_tags == pre.user_tags
    &&& same_user_proj(pre, post)
    &&& post.post_details == pre.post_details
    &&& post.post_relationships == pre.post_relationships
    &&& post.bookmarks == pre.bookmarks
    &&& same_follow_proj(pre, post)
    &&& post.cursors == pre.cursors
}

/// A retired tag on a post: the tagger leaves the post's taggers set, and
/// only when it was a member, the label rankings lose a point — retiring
/// the label at zero — and the post's tag counter moves.
pub open spec fn tag_post_del_applied(
    pre: CacheStore,
    post: CacheStore,
    user: Seq<char>,
    pk: Seq<char>,
    label: Seq<char>,
) -> bool {
    let tk = key2(pk, label);
    let was = pre.taggers.members(tk).contains(user);
    &&& set_removed(pre.taggers, post.taggers, tk, user)
    &&& if was {
        &&& score_dropped(pre.post_tags, post.post_tags, pk, label)
        &&& score_dropped(pre.tag_search, post.tag_search, global_tag_key(), label)
        &&& post.post_counts.wf()
        &&& ({
            let c = pcounts_or_zero(pre.post_counts, pk);
            &&& post.post_counts.spec_get(pk) == Some(
                PostCounts { tags: spec_dec(c.tags), replies: c.replies, reposts: c.reposts },
            )
            &&& forall|q: Seq<char>|
                q != pk ==> #[trigger] post.post_counts.spec_get(q) == pre.post_counts.spec_get(q)
        })
    } else {
        post.post_tags == pre.post_tags && post.tag_search == pre.tag_search && post.post_counts
            == pre.post_counts
    }
    &&& post.user_tags == pre.user_tags
    &&& same_user_proj(pre, post)
    &&& post.post_details == pre.post_details
    &&& post.post_relationships == pre.post_relationships
    &&& post.bookmarks == pre.bookmarks
    &&& same_follow_proj(pre, post)
    &&& post.cursors == pre.cursors
}

/// Whether applying this event must fail retryably: its graph record is not
/// there yet.
pub open spec fn event_blocked(graph: GraphStore, ev: EventView) -> bool {
    match ev.resource {
        ResourceView::User => ev.put && graph.users.spec_get(ev.user_id) is None,
        ResourceView::Tag(tid) => graph.tags.spec_get(tid) is None,
        ResourceView::Bookmark(bid) => graph.bookmarks.spec_get(key2(ev.user_id, bid)) is None,
        _ => false,
    }
}

/// What a successfully applied event does to the cache.
pub open spec fn event_applied(
    pre: CacheStore,
    post: CacheStore,
    graph: GraphStore,
    m: Moderation,
    ev: EventView,
) -> bool {
    match ev.resource {
        ResourceView::User => {
            if ev.put {
                match graph.users.spec_get(ev.user_id) {
                    Some(d) => user_put_applied(pre, post, ev.user_id, d),
                    None => false,
                }
            } else {
                user_del_applied(pre, post, ev.user_id)
            }
        },
        ResourceView::Post(pid) => {
            if ev.put {
                post_put_applied(pre, post, ev.user_id, pid)
            } else {
                post_del_applied(pre, post, ev.user_id, pid)
            }
        },
        ResourceView::Follow(target) => follow_applied(pre, post, ev.user_id, target, ev.put),
        ResourceView::Mute(target) => mute_applied(pre, post, ev.user_id, target, ev.put),
        ResourceView::Bookmark(bid) => {
            match graph.bookmarks.spec_get(key2(ev.user_id, bid)) {
                Some(pk) => bookmark_applied(pre, post, ev.user_id, bid, ev.put, pk@),
                None => false,
            }
        },
        ResourceView::Tag(tid) => {
            match graph.tags.spec_get(tid) {
                Some(t) => {
                    match t.post {
                        None => {
                            if ev.put {
                                if m.spec_allowed(ev.user_id, t.label@) {
                                    tag_put_applied(pre, post, ev.user_id, t.target@, t.label@)
                                } else {
                                    same_cache(pre, post)
                                }
                            } else {
                                tag_del_applied(pre, post, ev.user_id, t.target@, t.label@)
                            }
                        },
                        Some(pid) => {
                            let pk = key2(t.target@, pid@);
                            if ev.put {
                                if m.spec_allowed(ev.user_id, t.label@) {
                                    tag_post_put_applied(pre, post, ev.user_id, pk, t.label@)
                                } else {
                                    same_cache(pre, post)
                                }
                            } else {
                                tag_post_del_applied(pre, post, ev.user_id, pk, t.label@)
                            }
                        },
                    }
                },
                None => false,
            }
        },
    }
}

/// One dispatched event end to end: a blocked event leaves the cache alone
/// and records a retry; anything else applies and leaves the queue alone.
pub open spec fn event_step(
    pre: CacheStore,
    post: CacheStore,
    pre_retry: RetryQueue,
    post_retry: RetryQueue,
    graph: GraphStore,
    m: Moderation,
    ev: EventView,
) -> bool {
    if event_blocked(graph, ev) {
        same_cache(pre, post) && retry_recorded(
            pre_retry,
            post_retry,
            ev,
            EventError::MissingDependency,
        )
    } else {
        event_applied(pre, post, graph, m, ev) && post_retry == pre_retry
    }
}

/// Move a user's counters with a saturating adjustment of one field group.
fn upsert_counts(t: &mut Table<UserCounts>, id: &str, nc: UserCounts)
    requires
        old(t).wf(),
    ensures
        final(t).wf(),
        final(t).spec_get(id@) == Some(nc),
        forall|q: Seq<char>| q != id@ ==> #[trigger] final(t).spec_get(q) == old(t).spec_get(q),
{
    t.insert(id, nc);
}

/// Read a user's counters, or the zeroed record.
fn read_counts(t: &Table<UserCounts>, id: &str) -> (r: UserCounts)
    ensures
        r == counts_or_zero(*t, id@),
{
    match t.get(id) {
        Some(c) => *c,
        None => UserCounts::zeroed(),
    }
}

/// Move a post's counters.
fn upsert_post_counts(t: &mut Table<PostCounts>, pk: &str, nc: PostCounts)
    requires
        old(t).wf(),
    ensures
        final(t).wf(),
        final(t).spec_get(pk@) == Some(nc),
        forall|q: Seq<char>| q != pk@ ==> #[trigger] final(t).spec_get(q) == old(t).spec_get(q),
{
    t.insert(pk, nc);
}

/// Read a post's counters, or the zeroed record.
fn read_post_counts(t: &Table<PostCounts>, pk: &str) -> (r: PostCounts)
    ensures
        r == pcounts_or_zero(*t, pk@),
{
    match t.get(pk) {
        Some(c) => *c,
        None => PostCounts::zeroed(),
    }
}

/// Apply one parsed event to the cache; a missing graph record is the one
/// retryable failure.
pub fn apply_event(
    cache: &mut CacheStore,
    graph: &GraphStore,
    moderation: &Moderation,
    ev: &Event,
) -> (r: Result<(), EventError>)
    requires
        old(cache).wf(),
    ensures
        final(cache).wf(),
        match r {
            Ok(()) => !event_blocked(*graph, ev.view()) && event_applied(
                *old(cache),
                *final(cache),
                *graph,
                *moderation,
                ev.view(),
            ),
            Err(e) => e == EventError::MissingDependency && event_blocked(*graph, ev.view())
                && same_cache(*old(cache), *final(cache)),
        },
{
    let put = matches!(ev.event_type, crate::events::EventType::Put);
    match &ev.resource {
        Resource::User => {
            if put {
                let d = match graph.users.get(ev.user_id.as_str()) {
                    Some(d) => d,
                    None => {
                        return Err(EventError::MissingDependency);
                    },
                };
                let details = d.duplicate();
                cache.user_counts.create_if_absent(ev.user_id.as_str(), UserCounts::zeroed());
                cache.user_details.insert(ev.user_id.as_str(), details);
                let one = UserDetails::new(ev.user_id.clone(), d.name.clone());
                let mut batch: Vec<UserDetails> = Vec::new();
                batch.push(one);
                cache.search.put_to_index(&batch);
                proof {
                    let dv = crate::search::detail_views(batch@);
                    let dname = graph.users.spec_get(ev.user_id@)->0.name@;
                    let s0 = old(cache).search.names_view();
                    let i0 = old(cache).search.ids_view();
                    assert(dv.len() == 1);
                    assert(dv[0] == (ev.user_id@, dname));
                    assert(dv.drop_first() =~= Seq::<(Seq<char>, Seq<char>)>::empty());
                    assert(crate::search::puts_names(s0, dv) == crate::search::puts_names(
                        put_one_names(s0, dv[0].0, dv[0].1),
                        dv.drop_first(),
                    ));
                    assert(crate::search::puts_names(
                        put_one_names(s0, dv[0].0, dv[0].1),
                        dv.drop_first(),
                    ) == put_one_names(s0, dv[0].0, dv[0].1));
                    assert(crate::search::puts_ids(i0, dv) == crate::search::puts_ids(
                        put_one_ids(i0, dv[0].0, dv[0].1),
                        dv.drop_first(),
                    ));
                    assert(crate::search::puts_ids(
                        put_one_ids(i0, dv[0].0, dv[0].1),
                        dv.drop_first(),
                    ) == put_one_ids(i0, dv[0].0, dv[0].1));
                }
                Ok(())
            } else {
                cache.user_counts.remove(ev.user_id.as_str());
                cache.user_details.remove(ev.user_id.as_str());
                cache.search.delete_from_index(ev.user_id.as_str());
                Ok(())
            }
        },
        Resource::Post(pid) => {
            let pk = make_key2(ev.user_id.as_str(), pid.as_str());
            if put {
                cache.post_counts.create_if_absent(pk.as_str(), PostCounts::zeroed());
                Ok(())
            } else {
                cache.post_counts.remove(pk.as_str());
                cache.post_details.remove(pk.as_str());
                cache.post_relationships.remove(pk.as_str());
                Ok(())
            }
        },
        Resource::Follow(target) => {
            if put {
                let newly = cache.following.add(ev.user_id.as_str(), target.as_str());
                cache.followers.add(target.as_str(), ev.user_id.as_str());
                if newly {
                    if crate::text::str_eq(ev.user_id.as_str(), target.as_str()) {
                        let c = read_counts(&cache.user_counts, ev.user_id.as_str());
                        let nc = UserCounts {
                            followers: sat_inc(c.followers),
                            following: sat_inc(c.following),
                            posts: c.posts,
                            tags: c.tags,
                        };
                        upsert_counts(&mut cache.user_counts, ev.user_id.as_str(), nc);
                    } else {
                        let cu = read_counts(&cache.user_counts, ev.user_id.as_str());
                        upsert_counts(
                            &mut cache.user_counts,
                            ev.user_id.as_str(),
                            UserCounts {
                                followers: cu.followers,
                                following: sat_inc(cu.following),
                                posts: cu.posts,
                                tags: cu.tags,
                            },
                        );
                        let ct = read_counts(&cache.user_counts, target.as_str());
                        upsert_counts(
                            &mut cache.user_counts,
                            target.as_str(),
                            UserCounts {
                                followers: sat_inc(ct.followers),
                                following: ct.following,
                                posts: ct.posts,
                                tags: ct.tags,
                            },
                        );
                    }
                }
                Ok(())
            } else {
                let was = cache.following.remove_member(ev.user_id.as_str(), target.as_str());
                cache.followers.remove_member(target.as_str(), ev.user_id.as_str());
                if was {
                    if crate::text::str_eq(ev.user_id.as_str(), target.as_str()) {
                        let c = read_counts(&cache.user_counts, ev.user_id.as_str());
                        let nc = UserCounts {
                            followers: sat_dec(c.followers),
                            following: sat_dec(c.following),
                            posts: c.posts,
                            tags: c.tags,
                        };
                        upsert_counts(&mut cache.user_counts, ev.user_id.as_str(), nc);
                    } else {
                        let cu = read_counts(&cache.user_counts, ev.user_id.as_str());
                        upsert_counts(
                            &mut cache.user_counts,
                            ev.user_id.as_str(),
                            UserCounts {
                                followers: cu.followers,
                                following: sat_dec(cu.following),
                                posts: cu.posts,
                                tags: cu.tags,
                            },
                        );
                        let ct = read_counts(&cache.user_counts, target.as_str());
                        upsert_counts(
                            &mut cache.user_counts,
                            target.as_str(),
                            UserCounts {
                                followers: sat_dec(ct.followers),
                                following: ct.following,
                                posts: ct.posts,
                                tags: ct.tags,
                            },
                        );
                    }
                }
                Ok(())
            }
        },
        Resource::Mute(target) => {
            if put {
                cache.muted.add(ev.user_id.as_str(), target.as_str());
            } else {
                cache.muted.remove_member(ev.user_id.as_str(), target.as_str());
            }
            Ok(())
        },
        Resource::Bookmark(bid) => {
            let gk = make_key2(ev.user_id.as_str(), bid.as_str());
            let pk = match graph.bookmarks.get(gk.as_str()) {
                Some(pk) => pk,
                None => {
                    return Err(EventError::MissingDependency);
                },
            };
            let bk = make_key2(pk.as_str(), ev.user_id.as_str());
            if put {
                cache.bookmarks.insert(bk.as_str(), Bookmark { id: bid.clone(), indexed_at: 0 });
            } else {
                cache.bookmarks.remove(bk.as_str());
            }
            Ok(())
        },
        Resource::Tag(tid) => {
            let t = match graph.tags.get(tid.as_str()) {
                Some(t) => t,
                None => {
                    return Err(EventError::MissingDependency);
                },
            };
            match &t.post {
                None => {
                    let tk = make_key2(t.target.as_str(), t.label.as_str());
                    if put {
                        if !moderation.is_allowed(ev.user_id.as_str(), t.label.as_str()) {
                            return Ok(());
                        }
                        let newly = cache.taggers.add(tk.as_str(), ev.user_id.as_str());
                        if newly {
                            cache.user_tags.incr_score(t.target.as_str(), t.label.as_str());
                            cache.tag_search.incr_score("Tags:Global", t.label.as_str());
                            proof {
                                assert("Tags:Global"@ == global_tag_key());
                            }
                            let c = read_counts(&cache.user_counts, t.target.as_str());
                            upsert_counts(
                                &mut cache.user_counts,
                                t.target.as_str(),
                                UserCounts {
                                    followers: c.followers,
                                    following: c.following,
                                    posts: c.posts,
                                    tags: sat_inc(c.tags),
                                },
                            );
                        }
                        Ok(())
                    } else {
                        let was = cache.taggers.remove_member(tk.as_str(), ev.user_id.as_str());
                        if was {
                            drop_label_point(
                                &mut cache.user_tags,
                                t.target.as_str(),
                                t.label.as_str(),
                            );
                            drop_label_point(&mut cache.tag_search, "Tags:Global", t.label.as_str());
                            proof {
                                assert("Tags:Global"@ == global_tag_key());
                            }
                            let c = read_counts(&cache.user_counts, t.target.as_str());
                            upsert_counts(
                                &mut cache.user_counts,
                                t.target.as_str(),
                                UserCounts {
                                    followers: c.followers,
                                    following: c.following,
                                    posts: c.posts,
                                    tags: sat_dec(c.tags),
                                },
                            );
                        }
                        Ok(())
                    }
                },
                Some(pid) => {
                    let pk = make_key2(t.target.as_str(), pid.as_str());
                    let tk = make_key2(pk.as_str(), t.label.as_str());
                    if put {
                        if !moderation.is_allowed(ev.user_id.as_str(), t.label.as_str()) {
                            return Ok(());
                        }
                        let newly = cache.taggers.add(tk.as_str(), ev.user_id.as_str());
                        if newly {
                            cache.post_tags.incr_score(pk.as_str(), t.label.as_str());
                            cache.tag_search.incr_score("Tags:Global", t.label.as_str());
                            proof {
                                assert("Tags:Global"@ == global_tag_key());
                            }
                            let c = read_post_counts(&cache.post_counts, pk.as_str());
                            upsert_post_counts(
                                &mut cache.post_counts,
                                pk.as_str(),
                                PostCounts {
                                    tags: sat_inc(c.tags),
                                    replies: c.replies,
                                    reposts: c.reposts,
                                },
                            );
                        }
                        Ok(())
                    } else {
                        let was = cache.taggers.remove_member(tk.as_str(), ev.user_id.as_str());
                        if was {
                            drop_label_point(&mut cache.post_tags, pk.as_str(), t.label.as_str());
                            drop_label_point(&mut cache.tag_search, "Tags:Global", t.label.as_str());
                            proof {
                                assert("Tags:Global"@ == global_tag_key());
                            }
                            let c = read_post_counts(&cache.post_counts, pk.as_str());
                            upsert_post_counts(
                                &mut cache.post_counts,
                                pk.as_str(),
                                PostCounts {
                                    tags: sat_dec(c.tags),
                                    replies: c.replies,
                                    reposts: c.reposts,
                                },
                            );
                        }
                        Ok(())
                    }
                },
            }
        },
    }
}

/// Take one point from `member` under `key`, retiring it at zero.
fn drop_label_point(t: &mut ScoreSets, key: &str, member: &str)
    requires
        old(t).wf(),
    ensures
        final(t).wf(),
        score_dropped(*old(t), *final(t), key@, member@),
{
    match t.get_score(key, member) {
        None => {},
        Some(s) => {
            if s <= 1 {
                t.remove_member(key, member);
            } else {
                t.put_score(key, member, s - 1);
            }
        },
    }
}

/// Dispatch one event: apply it, and capture a retryable failure in the
/// retry queue; the failure never propagates.
pub fn handle_event(
    cache: &mut CacheStore,
    graph: &GraphStore,
    moderation: &Moderation,
    retry: &mut RetryQueue,
    ev: &Event,
) -> (r: Result<(), ()>)
    requires
        old(cache).wf(),
        old(retry).wf(),
    ensures
        final(cache).wf(),
        final(retry).wf(),
        r is Ok,
        event_step(
            *old(cache),
            *final(cache),
            *old(retry),
            *final(retry),
            *graph,
            *moderation,
            ev.view(),
        ),
{
    match apply_event(cache, graph, moderation, ev) {
        Ok(()) => Ok(()),
        Err(e) => {
            match extract_retry_event_info(ev, e) {
                Some((key, rev)) => {
                    retry.enqueue(key, rev);
                },
                None => {},
            }
            Ok(())
        },
    }
}

} // verus!
