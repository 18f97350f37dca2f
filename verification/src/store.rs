//! The two remote stores, as models: the cache index store that this engine
//! owns, and the graph store that is the system of record.
//!
//! The cache store bundles every derived projection family; the graph store
//! holds the authoritative records handlers read on a cache miss, plus the
//! homeserver population and its priority order.  All well-formedness of
//! the families is gathered in one `wf` predicate per store.

use crate::kv::Table;
use crate::records::{Bookmark, PostCounts, PostDetails, PostRelationships, TagDetails, UserCounts, UserDetails};
use crate::scores::ScoreSets;
use crate::search::SearchIndex;
use crate::sets::SetStore;
use vstd::prelude::*;

verus! {

/// The compound key of an entity owned by another: `"{owner}:{id}"`.
pub open spec fn key2(a: Seq<char>, b: Seq<char>) -> Seq<char> {
    a + ":"@ + b
}

/// Build the compound key of an entity owned by another.
pub fn make_key2(a: &str, b: &str) -> (r: String)
    ensures
        r@ == key2(a@, b@),
{
    let mut s: String = a.to_owned();
    s.append(":");
    s.append(b);
    s
}

/// The ranking that global tag-search suggestions live under: each label's
/// number of live occurrences across all tagged resources.
pub open spec fn global_tag_key() -> Seq<char> {
    "Tags:Global"@
}

/// One authoritative tag edge in the graph.
pub struct TagRecord {
    /// Who applied the tag.
    pub tagger: String,
    /// The tag label.
    pub label: String,
    /// The user the tag is on — as author, when the tag is on a post.
    pub target: String,
    /// The tagged post's id, when the tag is on a post rather than on the
    /// user directly.
    pub post: Option<String>,
}

impl TagRecord {
    pub fn duplicate(&self) -> (r: Self)
        ensures
            r.tagger@ == self.tagger@,
            r.label@ == self.label@,
            r.target@ == self.target@,
            match (r.post, self.post) {
                (Some(a), Some(b)) => a@ == b@,
                (None, None) => true,
                _ => false,
            },
    {
        TagRecord {
            tagger: self.tagger.clone(),
            label: self.label.clone(),
            target: self.target.clone(),
            post: match &self.post {
                Some(p) => Some(p.clone()),
                None => None,
            },
        }
    }
}

/// The cache index store: every derived, read-optimized projection.
pub struct CacheStore {
    /// Counters per user, keyed by user id.
    pub user_counts: Table<UserCounts>,
    /// Profile details per user, keyed by user id.
    pub user_details: Table<UserDetails>,
    /// Counters per post, keyed by `key2(author, post)`.
    pub post_counts: Table<PostCounts>,
    /// Details per post, keyed by `key2(author, post)`.
    pub post_details: Table<PostDetails>,
    /// Relationships per post, keyed by `key2(author, post)`.
    pub post_relationships: Table<PostRelationships>,
    /// Bookmarks, keyed by `key2(key2(author, post), viewer)`.
    pub bookmarks: Table<Bookmark>,
    /// Who a user follows, keyed by the follower's id.
    pub following: SetStore,
    /// Who follows a user, keyed by the followed user's id.
    pub followers: SetStore,
    /// Who a user muted, keyed by the muting user's id.
    pub muted: SetStore,
    /// The user search index.
    pub search: SearchIndex,
    /// Per-user tag rankings, keyed by user id: label by live count.
    pub user_tags: ScoreSets,
    /// Per-post tag rankings, keyed by `key2(author, post)`: label by live
    /// count.
    pub post_tags: ScoreSets,
    /// Taggers per `key2(user, label)`.
    pub taggers: SetStore,
    /// Global label rankings for tag search, under `global_tag_key()`.
    pub tag_search: ScoreSets,
    /// Resumption cursors, keyed by homeserver id.
    pub cursors: Table<String>,
}

impl CacheStore {
    /// All families are well formed.
    pub open spec fn wf(self) -> bool {
        &&& self.user_counts.wf()
        &&& self.user_details.wf()
        &&& self.post_counts.wf()
        &&& self.post_details.wf()
        &&& self.post_relationships.wf()
        &&& self.bookmarks.wf()
        &&& self.following.wf()
        &&& self.followers.wf()
        &&& self.muted.wf()
        &&& self.search.wf()
        &&& self.user_tags.wf()
        &&& self.post_tags.wf()
        &&& self.taggers.wf()
        &&& self.tag_search.wf()
        &&& self.cursors.wf()
    }

    pub fn new() -> (r: Self)
        ensures
            r.wf(),
    {
        CacheStore {
            user_counts: Table::new(),
            user_details: Table::new(),
            post_counts: Table::new(),
            post_details: Table::new(),
            post_relationships: Table::new(),
            bookmarks: Table::new(),
            following: SetStore::new(),
            followers: SetStore::new(),
            muted: SetStore::new(),
            search: SearchIndex::new(),
            user_tags: ScoreSets::new(),
            post_tags: ScoreSets::new(),
            taggers: SetStore::new(),
            tag_search: ScoreSets::new(),
            cursors: Table::new(),
        }
    }
}

/// No label occurs twice in one aggregated tag answer.
pub open spec fn distinct_labels(list: Seq<TagDetails>) -> bool {
    forall|i: int, j: int|
        #![trigger list[i].label, list[j].label]
        0 <= i < j < list.len() ==> list[i].label@ != list[j].label@
}

/// Whether one stored tag aggregate is well formed.
pub open spec fn aggregate_ok(r: Option<Vec<TagDetails>>) -> bool {
    match r {
        Some(list) => distinct_labels(list@),
        None => true,
    }
}

/// The graph store: the authoritative records this engine reads but never
/// writes.
pub struct GraphStore {
    /// Users by id.
    pub users: Table<UserDetails>,
    /// Posts by `key2(author, post)`.
    pub posts: Table<PostDetails>,
    /// Authoritative post counters by `key2(author, post)`, derived from the
    /// graph's edges; the fallback a counts cache miss reads.
    pub post_counts: Table<PostCounts>,
    /// Authoritative post relationships by `key2(author, post)`.
    pub post_relationships: Table<PostRelationships>,
    /// Tag edges by tag id; the graph retains the edge record, so deletion
    /// events can still resolve what they retire.
    pub tags: Table<TagRecord>,
    /// The aggregated tags on each user, by user id: the authoritative
    /// answer a cache miss falls back to.
    pub user_tags: Table<Vec<TagDetails>>,
    /// What each bookmark is on: the bookmarked post's `key2(author, post)`
    /// key, by `key2(owner, bookmark id)`; retained like the tag edges.
    pub bookmarks: Table<String>,
    /// The homeserver population, in priority order.
    pub homeserver_ids: Vec<String>,
}

impl GraphStore {
    pub open spec fn wf(self) -> bool {
        &&& self.users.wf()
        &&& self.posts.wf()
        &&& self.post_counts.wf()
        &&& self.post_relationships.wf()
        &&& self.tags.wf()
        &&& self.user_tags.wf()
        &&& forall|k: Seq<char>| aggregate_ok(#[trigger] self.user_tags.spec_get(k))
        &&& self.bookmarks.wf()
    }

    pub fn new() -> (r: Self)
        ensures
            r.wf(),
            r.homeserver_ids@.len() == 0,
    {
        let r = GraphStore {
            users: Table::new(),
            posts: Table::new(),
            post_counts: Table::new(),
            post_relationships: Table::new(),
            tags: Table::new(),
            user_tags: Table::new(),
            bookmarks: Table::new(),
            homeserver_ids: Vec::new(),
        };
        proof {
            assert forall|k: Seq<char>| aggregate_ok(#[trigger] r.user_tags.spec_get(k)) by {
                assert(!r.user_tags.contains_key(k));
            }
        }
        r
    }
}

} // verus!
