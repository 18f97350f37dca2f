//! The read-side views: a user or a post with its relational data, composed
//! cache-aside — the cache answers first, the graph store answers a miss —
//! one by one or batched over many keys.
//!
//! A missing detail record means the entity is unknown: the view is `None`,
//! never an error.  Missing counts or relationships read as their defaults.
//! Tags are only fetched when the counts say the entity has any, so an
//! absent tag index never sends the read to the graph for nothing.

use crate::records::{Bookmark, PostCounts, PostDetails, PostRelationships, TagDetails, UserCounts, UserDetails};
use crate::relationship::Relationship;
use crate::store::{key2, make_key2, CacheStore, GraphStore};
use crate::tags::{tag_views, tags_of, TagDetailsView, TagUser};
use vstd::prelude::*;

verus! {

/// The view of an optional viewer id.
pub open spec fn opt_view(v: Option<&str>) -> Option<Seq<char>> {
    match v {
        Some(s) => Some(s@),
        None => None,
    }
}

/// The details the read side serves for a user: the cache's record, or the
/// graph's on a miss.
pub open spec fn user_details_of(cache: CacheStore, graph: GraphStore, id: Seq<char>) -> Option<
    UserDetails,
> {
    match cache.user_details.spec_get(id) {
        Some(d) => Some(d),
        None => graph.users.spec_get(id),
    }
}

/// The counts served for a user: the record, or all zeroes.
pub open spec fn user_counts_of(cache: CacheStore, id: Seq<char>) -> UserCounts {
    match cache.user_counts.spec_get(id) {
        Some(c) => c,
        None => UserCounts { followers: 0, following: 0, posts: 0, tags: 0 },
    }
}

/// The relationship served towards a viewer: derived, or all false.
pub open spec fn relationship_of(
    cache: CacheStore,
    user: Seq<char>,
    viewer: Option<Seq<char>>,
) -> Relationship {
    match viewer {
        Some(v) => if Relationship::spec_exists(cache, user, v) {
            Relationship::spec_of(cache, user, v)
        } else {
            Relationship { following: false, followed_by: false, muted: false }
        },
        None => Relationship { following: false, followed_by: false, muted: false },
    }
}

/// The tags served for a user: none when the counts say none, otherwise the
/// cache-aside answer with the default bounds.
pub open spec fn user_tags_served(cache: CacheStore, graph: GraphStore, id: Seq<char>) -> Seq<
    TagDetailsView,
> {
    if user_counts_of(cache, id).tags == 0 {
        Seq::empty()
    } else {
        match tags_of(cache, graph, id, 0, 5, 5) {
            Some(t) => t,
            None => Seq::empty(),
        }
    }
}

/// A user with relational data: details, counts, tags, and the relationship
/// towards the viewer.
pub struct UserView {
    pub details: UserDetails,
    pub counts: UserCounts,
    pub tags: Vec<TagDetails>,
    pub relationship: Relationship,
}

/// Whether one composed user view is exactly what the stores serve.
pub open spec fn user_view_matches(
    cache: CacheStore,
    graph: GraphStore,
    id: Seq<char>,
    viewer: Option<Seq<char>>,
    r: Option<UserView>,
) -> bool {
    match user_details_of(cache, graph, id) {
        None => r is None,
        Some(d) => match r {
            Some(v) => {
                &&& v.details.id@ == d.id@
                &&& v.details.name@ == d.name@
                &&& v.counts == user_counts_of(cache, id)
                &&& v.relationship == relationship_of(cache, id, viewer)
                &&& tag_views(v.tags@) == user_tags_served(cache, graph, id)
            },
            None => false,
        },
    }
}

impl UserView {
    /// Compose one user's view, checking the cache first and then the
    /// graph; an unknown user is `None`, never an error.
    pub fn get_by_id(
        cache: &mut CacheStore,
        graph: &GraphStore,
        user_id: &str,
        viewer_id: Option<&str>,
    ) -> (r: Option<UserView>)
        requires
            old(cache).wf(),
            graph.wf(),
        ensures
            final(cache).wf(),
            user_view_matches(*old(cache), *graph, user_id@, opt_view(viewer_id), r),
            crate::tags::same_except_tag_read(*old(cache), *final(cache)),
    {
        let details = match cache.user_details.get(user_id) {
            Some(d) => d.duplicate(),
            None => {
                match graph.users.get(user_id) {
                    Some(d) => d.duplicate(),
                    None => {
                        return None;
                    },
                }
            },
        };
        let counts = match cache.user_counts.get(user_id) {
            Some(c) => *c,
            None => UserCounts::zeroed(),
        };
        let relationship = match Relationship::get_by_id(cache, user_id, viewer_id) {
            Some(rel) => rel,
            None => Relationship { following: false, followed_by: false, muted: false },
        };
        let tags: Vec<TagDetails> = if counts.tags == 0 {
            let empty: Vec<TagDetails> = Vec::new();
            proof {
                assert(tag_views(empty@) =~= Seq::<TagDetailsView>::empty());
            }
            empty
        } else {
            match TagUser::get_by_id(cache, graph, user_id, None, None, None) {
                Some(t) => t,
                None => {
                    let empty: Vec<TagDetails> = Vec::new();
                    proof {
                        assert(tag_views(empty@) =~= Seq::<TagDetailsView>::empty());
                    }
                    empty
                },
            }
        };
        Some(UserView { details, counts, tags, relationship })
    }

    /// Compose many users' views in one batched pass, aligned with the
    /// input.
    pub fn get_by_ids(
        cache: &mut CacheStore,
        graph: &GraphStore,
        user_ids: &Vec<String>,
        viewer_id: Option<&str>,
    ) -> (r: Vec<Option<UserView>>)
        requires
            old(cache).wf(),
            graph.wf(),
        ensures
            final(cache).wf(),
            r@.len() == user_ids@.len(),
            crate::tags::same_except_tag_read(*old(cache), *final(cache)),
            forall|i: int|
                0 <= i < user_ids@.len() ==> #[trigger] user_view_matches(
                    *old(cache),
                    *graph,
                    user_ids@[i]@,
                    opt_view(viewer_id),
                    r@[i],
                ),
    {
        let mut out: Vec<Option<UserView>> = Vec::new();
        let mut wanted: Vec<bool> = Vec::new();
        let mut i: usize = 0;
        while i < user_ids.len()
            invariant
                i <= user_ids@.len(),
                out@.len() == i,
                wanted@.len() == i,
                cache.wf(),
                graph.wf(),
                forall|j: int|
                    0 <= j < i ==> #[trigger] user_view_matches(
                        *cache,
                        *graph,
                        user_ids@[j]@,
                        opt_view(viewer_id),
                        out@[j],
                    ),
            decreases user_ids@.len() - i,
        {
            let one = Self::peek(cache, graph, user_ids[i].as_str(), viewer_id);
            let want = match &one {
                Some(view) => view.counts.tags > 0,
                None => false,
            };
            out.push(one);
            wanted.push(want);
            i = i + 1;
        }
        let ghost served = *cache;
        let mut k: usize = 0;
        while k < user_ids.len()
            invariant
                k <= user_ids@.len(),
                wanted@.len() == user_ids@.len(),
                cache.wf(),
                graph.wf(),
                crate::tags::same_except_tag_read(served, *cache),
            decreases user_ids@.len() - k,
        {
            if wanted[k] {
                crate::tags::TagUser::repopulate_if_missing(cache, graph, user_ids[k].as_str());
            }
            k = k + 1;
        }
        out
    }

    /// Compose one user's view from the current state, without the
    /// write-back: what a batched pass serves before it repopulates.
    fn peek(cache: &CacheStore, graph: &GraphStore, user_id: &str, viewer_id: Option<&str>) -> (r:
        Option<UserView>)
        ensures
            user_view_matches(*cache, *graph, user_id@, opt_view(viewer_id), r),
    {
        let details = match cache.user_details.get(user_id) {
            Some(d) => d.duplicate(),
            None => {
                match graph.users.get(user_id) {
                    Some(d) => d.duplicate(),
                    None => {
                        return None;
                    },
                }
            },
        };
        let counts = match cache.user_counts.get(user_id) {
            Some(c) => *c,
            None => UserCounts::zeroed(),
        };
        let relationship = match Relationship::get_by_id(cache, user_id, viewer_id) {
            Some(rel) => rel,
            None => Relationship { following: false, followed_by: false, muted: false },
        };
        let tags: Vec<TagDetails> = if counts.tags == 0 {
            let empty: Vec<TagDetails> = Vec::new();
            proof {
                assert(tag_views(empty@) =~= Seq::<TagDetailsView>::empty());
            }
            empty
        } else {
            match crate::tags::TagUser::peek_tags(cache, graph, user_id, 0, 5, 5) {
                Some(t) => t,
                None => {
                    let empty: Vec<TagDetails> = Vec::new();
                    proof {
                        assert(tag_views(empty@) =~= Seq::<TagDetailsView>::empty());
                    }
                    empty
                },
            }
        };
        Some(UserView { details, counts, tags, relationship })
    }
}

/// The details the read side serves for a post.
pub open spec fn post_details_of(cache: CacheStore, graph: GraphStore, pk: Seq<char>) -> Option<
    PostDetails,
> {
    match cache.post_details.spec_get(pk) {
        Some(d) => Some(d),
        None => graph.posts.spec_get(pk),
    }
}

/// The counts served for a post: the cache's record, the graph's on a
/// miss, or all zeroes.
pub open spec fn post_counts_of(cache: CacheStore, graph: GraphStore, pk: Seq<char>) -> PostCounts {
    match cache.post_counts.spec_get(pk) {
        Some(c) => c,
        None => match graph.post_counts.spec_get(pk) {
            Some(c) => c,
            None => PostCounts { tags: 0, replies: 0, reposts: 0 },
        },
    }
}

/// The relationships served for a post: the cache's record, the graph's on
/// a miss, or none.
pub open spec fn post_relationships_of(
    cache: CacheStore,
    graph: GraphStore,
    pk: Seq<char>,
) -> PostRelationships {
    match cache.post_relationships.spec_get(pk) {
        Some(x) => x,
        None => match graph.post_relationships.spec_get(pk) {
            Some(x) => x,
            None => PostRelationships { replied: false, reposted: false },
        },
    }
}

/// The tags served for a post: none when the counts say none, otherwise the
/// post's ranked labels with a live count, each with its bounded taggers,
/// from the post-tag projection the handlers maintain.
pub open spec fn post_tags_served(
    cache: CacheStore,
    graph: GraphStore,
    pk: Seq<char>,
    limit_tags: usize,
    limit_taggers: usize,
) -> Seq<TagDetailsView> {
    if post_counts_of(cache, graph, pk).tags == 0 {
        Seq::empty()
    } else {
        match cache.post_tags.ranking(pk) {
            None => Seq::empty(),
            Some(entries) => crate::tags::details_from(
                cache,
                pk,
                crate::tags::page_entries(entries, 0, limit_tags),
                limit_taggers,
            ),
        }
    }
}

/// A post with relational data: details, counts, tags, relationships, and
/// the viewer's bookmark.
pub struct PostView {
    pub details: PostDetails,
    pub counts: PostCounts,
    pub tags: Vec<TagDetails>,
    pub relationships: PostRelationships,
    pub bookmark: Option<Bookmark>,
}

/// Whether one composed post view is exactly what the stores serve.
pub open spec fn post_view_matches(
    cache: CacheStore,
    graph: GraphStore,
    author: Seq<char>,
    post: Seq<char>,
    viewer: Option<Seq<char>>,
    limit_tags: usize,
    limit_taggers: usize,
    r: Option<PostView>,
) -> bool {
    let pk = key2(author, post);
    match post_details_of(cache, graph, pk) {
        None => r is None,
        Some(d) => match r {
            Some(v) => {
                &&& v.details.id@ == d.id@
                &&& v.details.author@ == d.author@
                &&& v.details.content@ == d.content@
                &&& v.details.indexed_at == d.indexed_at
                &&& v.counts == post_counts_of(cache, graph, pk)
                &&& v.relationships == post_relationships_of(cache, graph, pk)
                &&& tag_views(v.tags@) == post_tags_served(
                    cache,
                    graph,
                    pk,
                    limit_tags,
                    limit_taggers,
                )
                &&& match viewer {
                    Some(vw) => match (v.bookmark, cache.bookmarks.spec_get(key2(pk, vw))) {
                        (Some(b), Some(bb)) => b.id@ == bb.id@ && b.indexed_at == bb.indexed_at,
                        (None, None) => true,
                        _ => false,
                    },
                    None => v.bookmark is None,
                }
            },
            None => false,
        },
    }
}

impl PostView {
    /// Compose one post's view, checking the cache first and then the
    /// graph; an unknown post is `None`, never an error.
    pub fn get_by_id(
        cache: &CacheStore,
        graph: &GraphStore,
        author_id: &str,
        post_id: &str,
        viewer_id: Option<&str>,
        limit_tags: Option<usize>,
        limit_taggers: Option<usize>,
    ) -> (r: Option<PostView>)
        ensures
            ({
                let lt = if limit_tags is Some {
                    limit_tags->0
                } else {
                    5
                };
                let lg = if limit_taggers is Some {
                    limit_taggers->0
                } else {
                    5
                };
                post_view_matches(
                    *cache,
                    *graph,
                    author_id@,
                    post_id@,
                    opt_view(viewer_id),
                    lt,
                    lg,
                    r,
                )
            }),
    {
        let lt: usize = match limit_tags {
            Some(n) => n,
            None => 5,
        };
        let lg: usize = match limit_taggers {
            Some(n) => n,
            None => 5,
        };
        let pk = make_key2(author_id, post_id);
        let details = match cache.post_details.get(pk.as_str()) {
            Some(d) => d.duplicate(),
            None => {
                match graph.posts.get(pk.as_str()) {
                    Some(d) => d.duplicate(),
                    None => {
                        return None;
                    },
                }
            },
        };
        let counts = match cache.post_counts.get(pk.as_str()) {
            Some(c) => *c,
            None => {
                match graph.post_counts.get(pk.as_str()) {
                    Some(c) => *c,
                    None => PostCounts::zeroed(),
                }
            },
        };
        let relationships = match cache.post_relationships.get(pk.as_str()) {
            Some(x) => *x,
            None => {
                match graph.post_relationships.get(pk.as_str()) {
                    Some(x) => *x,
                    None => PostRelationships::none(),
                }
            },
        };
        let bookmark = match viewer_id {
            Some(vw) => {
                let bk = make_key2(pk.as_str(), vw);
                match cache.bookmarks.get(bk.as_str()) {
                    Some(b) => Some(b.duplicate()),
                    None => None,
                }
            },
            None => None,
        };
        let tags: Vec<TagDetails> = if counts.tags == 0 {
            let empty: Vec<TagDetails> = Vec::new();
            proof {
                assert(tag_views(empty@) =~= Seq::<TagDetailsView>::empty());
            }
            empty
        } else {
            match cache.post_tags.range(pk.as_str(), 0, lt, true) {
                Some(page) => {
                    proof {
                        assert(crate::scores::entry_views(page@) =~= crate::tags::page_entries(
                            cache.post_tags.entries(pk@),
                            0,
                            lt,
                        ));
                    }
                    crate::tags::TagUser::details_for_page(cache, pk.as_str(), &page, lg)
                },
                None => {
                    let empty: Vec<TagDetails> = Vec::new();
                    proof {
                        assert(tag_views(empty@) =~= Seq::<TagDetailsView>::empty());
                    }
                    empty
                },
            }
        };
        Some(PostView { details, counts, tags, relationships, bookmark })
    }

    /// Compose many posts' views from their `"author:post"` pairs in one
    /// batched pass, aligned with the input.
    pub fn get_by_ids(
        cache: &CacheStore,
        graph: &GraphStore,
        post_keys: &Vec<(String, String)>,
        viewer_id: Option<&str>,
    ) -> (r: Vec<Option<PostView>>)
        ensures
            r@.len() == post_keys@.len(),
            forall|i: int|
                0 <= i < post_keys@.len() ==> #[trigger] post_view_matches(
                    *cache,
                    *graph,
                    post_keys@[i].0@,
                    post_keys@[i].1@,
                    opt_view(viewer_id),
                    5,
                    5,
                    r@[i],
                ),
    {
        let mut out: Vec<Option<PostView>> = Vec::new();
        let mut i: usize = 0;
        while i < post_keys.len()
            invariant
                i <= post_keys@.len(),
                out@.len() == i,
                forall|j: int|
                    0 <= j < i ==> #[trigger] post_view_matches(
                        *cache,
                        *graph,
                        post_keys@[j].0@,
                        post_keys@[j].1@,
                        opt_view(viewer_id),
                        5,
                        5,
                        out@[j],
                    ),
            decreases post_keys@.len() - i,
        {
            let one = Self::get_by_id(
                cache,
                graph,
                post_keys[i].0.as_str(),
                post_keys[i].1.as_str(),
                viewer_id,
                None,
                None,
            );
            out.push(one);
            i = i + 1;
        }
        out
    }
}

} // verus!
