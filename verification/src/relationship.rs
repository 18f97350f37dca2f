//! Relationships between a viewed user and a viewer: derived booleans,
//! never stored, always computed from set membership — one by one or
//! batched over many users with a single pipelined pass.

use crate::store::CacheStore;
use vstd::prelude::*;

verus! {

/// How a viewed user and a viewer relate.
#[derive(Clone, Copy, PartialEq, Eq, Structural)]
pub struct Relationship {
    /// The viewer follows the user.
    pub following: bool,
    /// The user follows the viewer.
    pub followed_by: bool,
    /// The viewer muted the user.
    pub muted: bool,
}

impl Relationship {
    /// The relationship the cache's sets derive for `(user, viewer)`.
    pub open spec fn spec_of(cache: CacheStore, user: Seq<char>, viewer: Seq<char>) -> Relationship {
        Relationship {
            following: cache.following.has_member(viewer, user),
            followed_by: cache.following.has_member(user, viewer),
            muted: cache.muted.has_member(viewer, user),
        }
    }

    /// Whether a relationship is derivable at all: both sides must exist.
    pub open spec fn spec_exists(cache: CacheStore, user: Seq<char>, viewer: Seq<char>) -> bool {
        cache.user_counts.contains_key(user) && cache.user_counts.contains_key(viewer)
    }

    /// Derive the relationship of one user towards one viewer from the
    /// membership sets; `None` when either side is unknown.
    pub fn get_from_index(cache: &CacheStore, user_id: &str, viewer_id: &str) -> (r: Option<
        Relationship,
    >)
        ensures
            r == if Self::spec_exists(*cache, user_id@, viewer_id@) {
                Some(Self::spec_of(*cache, user_id@, viewer_id@))
            } else {
                None::<Relationship>
            },
    {
        let user_exist = cache.user_counts.contains(user_id);
        let viewer_exist = cache.user_counts.contains(viewer_id);
        if !user_exist || !viewer_exist {
            return None;
        }
        let following = cache.following.check(viewer_id, user_id);
        let followed_by = cache.following.check(user_id, viewer_id);
        let muted = cache.muted.check(viewer_id, user_id);
        Some(Relationship { following, followed_by, muted })
    }

    /// Derive the relationship for one user; no viewer means no
    /// relationship, never an error.
    pub fn get_by_id(cache: &CacheStore, user_id: &str, viewer_id: Option<&str>) -> (r: Option<
        Relationship,
    >)
        ensures
            r == match viewer_id {
                None => None::<Relationship>,
                Some(v) => if Self::spec_exists(*cache, user_id@, v@) {
                    Some(Self::spec_of(*cache, user_id@, v@))
                } else {
                    None::<Relationship>
                },
            },
    {
        match viewer_id {
            None => None,
            Some(v) => Self::get_from_index(cache, user_id, v),
        }
    }

    /// Derive the relationships of many users towards one fixed viewer,
    /// with all membership checks batched into one pipelined pass; the
    /// results align with the input, and a user that does not exist — or a
    /// viewer that does not — yields `None`, never an error.
    pub fn get_by_ids(cache: &CacheStore, user_ids: &Vec<String>, viewer_id: Option<&str>) -> (r:
        Vec<Option<Relationship>>)
        ensures
            r@.len() == user_ids@.len(),
            forall|i: int|
                0 <= i < user_ids@.len() ==> (#[trigger] r@[i]) == match viewer_id {
                    None => None::<Relationship>,
                    Some(v) => if Self::spec_exists(*cache, user_ids@[i]@, v@) {
                        Some(Self::spec_of(*cache, user_ids@[i]@, v@))
                    } else {
                        None::<Relationship>
                    },
                },
    {
        let viewer = match viewer_id {
            None => {
                let mut out: Vec<Option<Relationship>> = Vec::new();
                let mut i: usize = 0;
                while i < user_ids.len()
                    invariant
                        i <= user_ids@.len(),
                        out@.len() == i,
                        forall|j: int| 0 <= j < i ==> (#[trigger] out@[j]) is None,
                    decreases user_ids@.len() - i,
                {
                    out.push(None);
                    i = i + 1;
                }
                return out;
            },
            Some(v) => v,
        };
        let viewer_exists = cache.user_counts.contains(viewer);
        if !viewer_exists {
            let mut out: Vec<Option<Relationship>> = Vec::new();
            let mut i: usize = 0;
            while i < user_ids.len()
                invariant
                    i <= user_ids@.len(),
                    out@.len() == i,
                    forall|j: int| 0 <= j < i ==> (#[trigger] out@[j]) is None,
                    !cache.user_counts.contains_key(viewer@),
                decreases user_ids@.len() - i,
            {
                out.push(None);
                i = i + 1;
            }
            return out;
        }
        // One aligned batch: for user i, positions 2i and 2i + 1 carry the
        // two follow directions, and position i of the muted batch the mute.
        let mut follower_checks: Vec<(String, String)> = Vec::new();
        let mut muted_checks: Vec<(String, String)> = Vec::new();
        let mut i: usize = 0;
        while i < user_ids.len()
            invariant
                i <= user_ids@.len(),
                follower_checks@.len() == 2 * i,
                muted_checks@.len() == i,
                forall|j: int|
                    0 <= j < i ==> (#[trigger] muted_checks@[j]).0@ == viewer@
                        && muted_checks@[j].1@ == user_ids@[j]@,
                forall|j: int|
                    0 <= j < i ==> (#[trigger] follower_checks@[2 * j]).0@ == viewer@
                        && follower_checks@[2 * j].1@ == user_ids@[j]@,
                forall|j: int|
                    0 <= j < i ==> (#[trigger] follower_checks@[2 * j + 1]).0@ == user_ids@[j]@
                        && follower_checks@[2 * j + 1].1@ == viewer@,
            decreases user_ids@.len() - i,
        {
            follower_checks.push((viewer.to_owned(), user_ids[i].clone()));
            follower_checks.push((user_ids[i].clone(), viewer.to_owned()));
            muted_checks.push((viewer.to_owned(), user_ids[i].clone()));
            i = i + 1;
        }
        let follower_results = cache.following.check_batch(&follower_checks);
        let muted_results = cache.muted.check_batch(&muted_checks);
        let mut out: Vec<Option<Relationship>> = Vec::new();
        let mut k: usize = 0;
        while k < user_ids.len()
            invariant
                k <= user_ids@.len(),
                out@.len() == k,
                follower_checks@.len() == 2 * user_ids@.len(),
                muted_checks@.len() == user_ids@.len(),
                follower_results@.len() == follower_checks@.len(),
                muted_results@.len() == muted_checks@.len(),
                cache.user_counts.contains_key(viewer@),
                forall|j: int|
                    0 <= j < user_ids@.len() ==> (#[trigger] muted_checks@[j]).0@ == viewer@
                        && muted_checks@[j].1@ == user_ids@[j]@,
                forall|j: int|
                    0 <= j < user_ids@.len() ==> (#[trigger] follower_checks@[2 * j]).0@ == viewer@
                        && follower_checks@[2 * j].1@ == user_ids@[j]@,
                forall|j: int|
                    0 <= j < user_ids@.len() ==> (#[trigger] follower_checks@[2 * j + 1]).0@
                        == user_ids@[j]@ && follower_checks@[2 * j + 1].1@ == viewer@,
                forall|j: int|
                    0 <= j < follower_checks@.len() ==> #[trigger] follower_results@[j]
                        == cache.following.has_member(
                        follower_checks@[j].0@,
                        follower_checks@[j].1@,
                    ),
                forall|j: int|
                    0 <= j < muted_checks@.len() ==> #[trigger] muted_results@[j]
                        == cache.muted.has_member(muted_checks@[j].0@, muted_checks@[j].1@),
                forall|j: int|
                    0 <= j < k ==> (#[trigger] out@[j]) == if Self::spec_exists(
                        *cache,
                        user_ids@[j]@,
                        viewer@,
                    ) {
                        Some(Self::spec_of(*cache, user_ids@[j]@, viewer@))
                    } else {
                        None::<Relationship>
                    },
            decreases user_ids@.len() - k,
        {
            let exists_user = cache.user_counts.contains(user_ids[k].as_str());
            if exists_user {
                proof {
                    assert(follower_checks@[2 * (k as int)].0@ == viewer@);
                    assert(follower_checks@[2 * (k as int) + 1].0@ == user_ids@[k as int]@);
                    assert(muted_checks@[k as int].0@ == viewer@);
                }
                let rel = Relationship {
                    following: follower_results[2 * k],
                    followed_by: follower_results[2 * k + 1],
                    muted: muted_results[k],
                };
                out.push(Some(rel));
            } else {
                out.push(None);
            }
            k = k + 1;
        }
        out
    }
}

/// Whether two users are friends: each follows the other; both membership
/// checks go out in one batch.
pub struct Friends(pub Vec<String>);

impl Friends {
    /// Friendship is mutual following.
    pub open spec fn spec_check(cache: CacheStore, a: Seq<char>, b: Seq<char>) -> bool {
        cache.following.has_member(a, b) && cache.following.has_member(b, a)
    }

    /// Whether `user_a_id` and `user_b_id` are friends.
    pub fn check(cache: &CacheStore, user_a_id: &str, user_b_id: &str) -> (r: bool)
        ensures
            r == Self::spec_check(*cache, user_a_id@, user_b_id@),
    {
        let mut checks: Vec<(String, String)> = Vec::new();
        checks.push((user_a_id.to_owned(), user_b_id.to_owned()));
        checks.push((user_b_id.to_owned(), user_a_id.to_owned()));
        let results = cache.following.check_batch(&checks);
        proof {
            assert(checks@[0].0@ == user_a_id@ && checks@[0].1@ == user_b_id@);
            assert(checks@[1].0@ == user_b_id@ && checks@[1].1@ == user_a_id@);
        }
        results[0] && results[1]
    }
}

} // verus!
