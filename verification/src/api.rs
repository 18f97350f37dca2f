//! The read-query surface: the query shapes the front end accepts and the
//! compute behind each route, from validated input to a served answer.
//!
//! The HTTP plumbing lives outside this crate; each handler here takes the
//! already-extracted path and query values, validates them exactly as the
//! route promises, and answers from the store models.  Tag-search input is
//! sanitized and validated by the application's own tag rules, through the
//! specification crate that defines them.

use crate::search::{id_matches_of, SearchIndex, UserSearch};
use crate::store::CacheStore;
use crate::tags::TagUser;
use crate::text::{lower_of, str_starts_with};
use crate::views::{post_view_matches, PostView};
use pubky_app_specs::traits::Validatable;
use vstd::prelude::*;

verus! {

/// How many characters an id-prefix search needs at least.
pub const USER_ID_SEARCH_MIN_PREFIX_LEN: usize = 3;

/// Why a query was refused.
#[derive(Clone, Copy, PartialEq, Eq, Structural, Debug)]
pub enum ApiError {
    InvalidInput,
    UserNotFound,
    PostNotFound,
}

/// Pagination of a search answer.
pub struct SearchQuery {
    /// Skip this many results.
    pub skip: Option<usize>,
    /// Return at most this many results.
    pub limit: Option<usize>,
}

/// Pagination of a tag-search answer.
pub struct SearchTagsQuery {
    pub skip: Option<usize>,
    pub limit: Option<usize>,
}

/// Pagination of a muted-users answer.
pub struct UserMutedQuery {
    pub skip: Option<usize>,
    pub limit: Option<usize>,
}

/// Bounds of a user-tags answer.
pub struct UserTagsQuery {
    pub skip_tags: Option<usize>,
    pub limit_tags: Option<usize>,
    pub limit_taggers: Option<usize>,
    pub viewer_id: Option<String>,
    pub depth: Option<u8>,
}

/// Bounds of a user-taggers answer.
pub struct UserTaggersQuery {
    pub skip: Option<usize>,
    pub limit: Option<usize>,
    pub viewer_id: Option<String>,
    pub depth: Option<u8>,
}

/// Bounds of a post view.
pub struct PostViewQuery {
    pub viewer_id: Option<String>,
    pub limit_tags: Option<usize>,
    pub limit_taggers: Option<usize>,
}

/// Bounds of a post-tags answer.
pub struct PostTagsQuery {
    pub skip_tags: Option<usize>,
    pub limit_tags: Option<usize>,
    pub limit_taggers: Option<usize>,
    pub viewer_id: Option<String>,
}

/// Pagination of a post-taggers answer.
pub struct PostTaggersQuery {
    pub skip: Option<usize>,
    pub limit: Option<usize>,
    pub viewer_id: Option<String>,
}

/// A taggers answer together with the viewer's relationship to the tagged.
pub struct TaggersInfoResponse {
    pub users: Vec<String>,
    pub relationship: bool,
}

impl TaggersInfoResponse {
    pub fn from_parts(users: Vec<String>, relationship: bool) -> (r: Self)
        ensures
            r.users == users,
            r.relationship == relationship,
    {
        TaggersInfoResponse { users, relationship }
    }
}

/// The sanitized form of a tag label: what the application's tag rules make
/// of the raw input, a function of the characters alone.
pub uninterp spec fn tag_label_sanitized(s: Seq<char>) -> Seq<char>;

/// Whether a label passes the application's tag rules, a function of the
/// characters alone.
pub uninterp spec fn tag_label_valid(s: Seq<char>) -> bool;

/// Relies on pubky_app_specs::PubkyAppTag: `new` sanitizes the label by the
/// application's tag rules (trim and lowercase) and `validate` accepts
/// exactly the labels those rules allow; both depend on the label alone.
/// The throwaway URI only satisfies the constructor.  The constructor also
/// stamps a creation time, which would panic only on a machine clock set
/// before the epoch; the stamp never reaches the result.
#[verifier::external_body]
fn sanitize_validate_label(tag_prefix: &str) -> (r: Option<String>)
    ensures
        match r {
            Some(l) => l@ == tag_label_sanitized(tag_prefix@) && tag_label_valid(l@),
            None => !tag_label_valid(tag_label_sanitized(tag_prefix@)),
        },
{
    let temp_tag = pubky_app_specs::PubkyAppTag::new(
        String::from("pubky://user_pubky_id/pub/pubky.app/profile.json"),
        tag_prefix.to_string(),
    );
    match temp_tag.validate(None) {
        Ok(()) => Some(temp_tag.label),
        Err(_) => None,
    }
}

/// Sanitize a raw tag prefix and hold it to the tag rules; input the rules
/// refuse is invalid, never served.
pub fn sanitize_validate(tag_prefix: &str) -> (r: Result<String, ApiError>)
    ensures
        match r {
            Ok(l) => l@ == tag_label_sanitized(tag_prefix@) && tag_label_valid(l@),
            Err(e) => e == ApiError::InvalidInput && !tag_label_valid(
                tag_label_sanitized(tag_prefix@),
            ),
        },
{
    match sanitize_validate_label(tag_prefix) {
        Some(l) => Ok(l),
        None => Err(ApiError::InvalidInput),
    }
}

/// Search users by name prefix: an empty or blank prefix is invalid; a
/// prefix nothing matches answers the empty list.
pub fn search_users_by_name(index: &SearchIndex, prefix: &str, query: &SearchQuery) -> (r: Result<
    UserSearch,
    ApiError,
>)
    ensures
        match r {
            Err(e) => e == ApiError::InvalidInput && crate::processor::trim_of(prefix@).len() == 0,
            Ok(us) => crate::processor::trim_of(prefix@).len() > 0 && ({
                let ms = crate::search::matches_of(index.names_view(), lower_of(prefix@));
                let window = crate::search::page_of(
                    ms,
                    Some(
                        if query.skip is Some {
                            query.skip->0
                        } else {
                            0
                        },
                    ),
                    Some(
                        if query.limit is Some {
                            query.limit->0
                        } else {
                            200
                        },
                    ),
                );
                crate::lists::views_of(us.0@) == window.map_values(
                    |e: (Seq<char>, Seq<char>)| e.1,
                )
            }),
        },
{
    let trimmed = crate::processor::trim_blanks(prefix);
    if trimmed.as_str().unicode_len() == 0 {
        return Err(ApiError::InvalidInput);
    }
    let skip: usize = match query.skip {
        Some(n) => n,
        None => 0,
    };
    let limit: usize = match query.limit {
        Some(n) => n,
        None => 200,
    };
    match index.get_by_name(prefix, Some(skip), Some(limit)) {
        Some(us) => Ok(us),
        None => {
            let empty: Vec<String> = Vec::new();
            proof {
                assert(crate::lists::views_of(empty@) =~= Seq::<Seq<char>>::empty());
                let ms = crate::search::matches_of(index.names_view(), lower_of(prefix@));
                let window = crate::search::page_of(ms, Some(skip), Some(limit));
                assert(window.map_values(|e: (Seq<char>, Seq<char>)| e.1) =~= Seq::<
                    Seq<char>,
                >::empty());
            }
            Ok(UserSearch(empty))
        },
    }
}

/// Search users by id prefix: a prefix shorter than the minimum is
/// invalid; a prefix nothing matches answers the empty list.
pub fn search_users_by_id(index: &SearchIndex, prefix: &str, query: &SearchQuery) -> (r: Result<
    UserSearch,
    ApiError,
>)
    ensures
        match r {
            Err(e) => e == ApiError::InvalidInput && crate::processor::trim_of(prefix@).len()
                < USER_ID_SEARCH_MIN_PREFIX_LEN,
            Ok(us) => crate::processor::trim_of(prefix@).len() >= USER_ID_SEARCH_MIN_PREFIX_LEN
                && ({
                let ms = id_matches_of(index.ids_view(), lower_of(prefix@));
                let window = crate::search::page_ids(
                    ms,
                    Some(
                        if query.skip is Some {
                            query.skip->0
                        } else {
                            0
                        },
                    ),
                    Some(
                        if query.limit is Some {
                            query.limit->0
                        } else {
                            200
                        },
                    ),
                );
                crate::lists::views_of(us.0@) == window
            }),
        },
{
    let trimmed = crate::processor::trim_blanks(prefix);
    if trimmed.as_str().unicode_len() < USER_ID_SEARCH_MIN_PREFIX_LEN {
        return Err(ApiError::InvalidInput);
    }
    let skip: usize = match query.skip {
        Some(n) => n,
        None => 0,
    };
    let limit: usize = match query.limit {
        Some(n) => n,
        None => 200,
    };
    match index.get_by_id(prefix, Some(skip), Some(limit)) {
        Some(us) => Ok(us),
        None => {
            let empty: Vec<String> = Vec::new();
            proof {
                assert(crate::lists::views_of(empty@) =~= Seq::<Seq<char>>::empty());
            }
            Ok(UserSearch(empty))
        },
    }
}

/// List a user's muted ids, paged; an unknown user is not found, never an
/// error.
pub fn user_muted(cache: &CacheStore, user_id: &str, query: &UserMutedQuery) -> (r: Result<
    Vec<String>,
    ApiError,
>)
    ensures
        match r {
            Err(e) => e == ApiError::UserNotFound && !cache.user_counts.contains_key(user_id@),
            Ok(v) => cache.user_counts.contains_key(user_id@) && crate::lists::views_of(v@) == ({
                let ms = cache.muted.members(user_id@);
                let s = if query.skip is Some {
                    query.skip->0
                } else {
                    0
                };
                let l = if query.limit is Some {
                    query.limit->0
                } else {
                    200
                };
                let e = if s > ms.len() {
                    s as int
                } else if s + l < ms.len() {
                    s + l
                } else {
                    ms.len() as int
                };
                if s >= ms.len() {
                    Seq::<Seq<char>>::empty()
                } else {
                    ms.subrange(s as int, e)
                }
            }),
        },
{
    if !cache.user_counts.contains(user_id) {
        return Err(ApiError::UserNotFound);
    }
    let skip: usize = match query.skip {
        Some(n) => n,
        None => 0,
    };
    let limit: usize = match query.limit {
        Some(n) => n,
        None => 200,
    };
    Ok(cache.muted.members_range(user_id, skip, limit))
}

/// Serve a user's tags, cache-aside; an unknown user is not found, never an
/// error.
pub fn user_tags(
    cache: &mut CacheStore,
    graph: &crate::store::GraphStore,
    user_id: &str,
    query: &UserTagsQuery,
) -> (r: Result<Vec<crate::records::TagDetails>, ApiError>)
    requires
        old(cache).wf(),
        graph.wf(),
    ensures
        final(cache).wf(),
        crate::tags::same_except_tag_read(*old(cache), *final(cache)),
        ({
            let st = if query.skip_tags is Some {
                query.skip_tags->0
            } else {
                0
            };
            let lt = if query.limit_tags is Some {
                query.limit_tags->0
            } else {
                5
            };
            let lg = if query.limit_taggers is Some {
                query.limit_taggers->0
            } else {
                5
            };
            match r {
                Ok(v) => crate::tags::tags_of(*old(cache), *graph, user_id@, st, lt, lg) == Some(
                    crate::tags::tag_views(v@),
                ),
                Err(e) => e == ApiError::UserNotFound && crate::tags::tags_of(
                    *old(cache),
                    *graph,
                    user_id@,
                    st,
                    lt,
                    lg,
                ) is None,
            }
        }),
        crate::tags::repop_progress(*old(cache), *final(cache), *graph, user_id@),
{
    match TagUser::get_by_id(
        cache,
        graph,
        user_id,
        query.skip_tags,
        query.limit_tags,
        query.limit_taggers,
    ) {
        Some(v) => Ok(v),
        None => Err(ApiError::UserNotFound),
    }
}

/// Serve one post's view; an unknown post is not found, never an error.
pub fn post_view(
    cache: &CacheStore,
    graph: &crate::store::GraphStore,
    author_id: &str,
    post_id: &str,
    query: &PostViewQuery,
) -> (r: Result<PostView, ApiError>)
    ensures
        ({
            let lt = if query.limit_tags is Some {
                query.limit_tags->0
            } else {
                5
            };
            let lg = if query.limit_taggers is Some {
                query.limit_taggers->0
            } else {
                5
            };
            match r {
                Ok(v) => post_view_matches(
                    *cache,
                    *graph,
                    author_id@,
                    post_id@,
                    match query.viewer_id {
                        Some(vw) => Some(vw@),
                        None => None,
                    },
                    lt,
                    lg,
                    Some(v),
                ),
                Err(e) => e == ApiError::PostNotFound && post_view_matches(
                    *cache,
                    *graph,
                    author_id@,
                    post_id@,
                    match query.viewer_id {
                        Some(vw) => Some(vw@),
                        None => None,
                    },
                    lt,
                    lg,
                    None::<PostView>,
                ),
            }
        }),
{
    let viewer: Option<&str> = match &query.viewer_id {
        Some(v) => Some(v.as_str()),
        None => None,
    };
    match PostView::get_by_id(
        cache,
        graph,
        author_id,
        post_id,
        viewer,
        query.limit_tags,
        query.limit_taggers,
    ) {
        Some(v) => Ok(v),
        None => Err(ApiError::PostNotFound),
    }
}

/// Search tag labels by prefix: the raw prefix is sanitized and held to the
/// tag rules, and the live labels starting with it are served as a
/// lexicographic scan, paged.
pub fn search_tags_by_prefix(cache: &CacheStore, prefix: &str, query: &SearchTagsQuery) -> (r:
    Result<Vec<String>, ApiError>)
    ensures
        match r {
            Err(e) => e == ApiError::InvalidInput && !tag_label_valid(
                tag_label_sanitized(prefix@),
            ),
            Ok(v) => tag_label_valid(tag_label_sanitized(prefix@)) && crate::lists::views_of(v@)
                == ({
                let members = label_members(
                    cache.tag_search.entries(crate::store::global_tag_key()),
                );
                let ms = crate::text::lex_sort(
                    id_matches_of(members, tag_label_sanitized(prefix@)),
                );
                let s = if query.skip is Some {
                    query.skip->0
                } else {
                    0
                };
                let l = if query.limit is Some {
                    query.limit->0
                } else {
                    20
                };
                let e = if s > ms.len() {
                    s as int
                } else if s + l < ms.len() {
                    s + l
                } else {
                    ms.len() as int
                };
                if s >= ms.len() {
                    Seq::<Seq<char>>::empty()
                } else {
                    ms.subrange(s as int, e)
                }
            }),
        },
{
    let label = match sanitize_validate(prefix) {
        Ok(l) => l,
        Err(e) => {
            return Err(e);
        },
    };
    let skip: usize = match query.skip {
        Some(n) => n,
        None => 0,
    };
    let limit: usize = match query.limit {
        Some(n) => n,
        None => 20,
    };
    let ranked = cache.tag_search.all_entries("Tags:Global");
    proof {
        assert("Tags:Global"@ == crate::store::global_tag_key());
    }
    let ghost entries = cache.tag_search.entries(crate::store::global_tag_key());
    let mut ms: Vec<String> = Vec::new();
    let mut i: usize = 0;
    proof {
        assert(label_members(entries).take(0) =~= Seq::<Seq<char>>::empty());
        assert(crate::lists::views_of(ms@) =~= id_matches_of(
            label_members(entries).take(0),
            label@,
        ));
    }
    while i < ranked.len()
        invariant
            i <= ranked@.len(),
            crate::scores::entry_views(ranked@) == entries,
            label@ == tag_label_sanitized(prefix@),
            crate::lists::views_of(ms@) == id_matches_of(
                label_members(entries).take(i as int),
                label@,
            ),
        decreases ranked@.len() - i,
    {
        let ghost pre = crate::lists::views_of(ms@);
        let hit = str_starts_with(ranked[i].0.as_str(), label.as_str());
        if hit {
            ms.push(ranked[i].0.clone());
        }
        proof {
            let e = label_members(entries)[i as int];
            assert(e == entries[i as int].0);
            assert(label_members(entries).take(i + 1 as int) =~= label_members(entries).take(
                i as int,
            ).push(e));
            crate::search::lemma_id_matches_snoc(
                label_members(entries).take(i as int),
                label@,
                e,
            );
            if hit {
                assert(crate::lists::views_of(ms@) =~= pre.push(e));
            }
        }
        i = i + 1;
    }
    proof {
        assert(label_members(entries).take(ranked@.len() as int) =~= label_members(entries));
    }
    let ms = sort_labels(ms);
    if skip >= ms.len() {
        let empty: Vec<String> = Vec::new();
        proof {
            assert(crate::lists::views_of(empty@) =~= Seq::<Seq<char>>::empty());
        }
        return Ok(empty);
    }
    let end: usize = if limit < ms.len() - skip {
        skip + limit
    } else {
        ms.len()
    };
    let mut out: Vec<String> = Vec::new();
    let mut j: usize = skip;
    proof {
        assert(crate::lists::views_of(out@) =~= crate::lists::views_of(ms@).subrange(
            skip as int,
            skip as int,
        ));
    }
    while j < end
        invariant
            skip <= j <= end <= ms@.len(),
            crate::lists::views_of(out@) == crate::lists::views_of(ms@).subrange(
                skip as int,
                j as int,
            ),
        decreases end - j,
    {
        let ghost pre = crate::lists::views_of(out@);
        out.push(ms[j].clone());
        proof {
            assert(crate::lists::views_of(out@) =~= pre.push(
                crate::lists::views_of(ms@)[j as int],
            ));
            assert(crate::lists::views_of(ms@).subrange(skip as int, j + 1 as int)
                =~= crate::lists::views_of(ms@).subrange(skip as int, j as int).push(
                crate::lists::views_of(ms@)[j as int],
            ));
        }
        j = j + 1;
    }
    Ok(out)
}

/// The ranked labels, in ranking order.
pub open spec fn label_members(s: Seq<(Seq<char>, u64)>) -> Seq<Seq<char>> {
    s.map_values(|p: (Seq<char>, u64)| p.0)
}

/// Rearrange labels into lexicographic order, by insertion.
fn sort_labels(ms: Vec<String>) -> (r: Vec<String>)
    ensures
        crate::lists::views_of(r@) == crate::text::lex_sort(crate::lists::views_of(ms@)),
{
    let ghost msv = crate::lists::views_of(ms@);
    let mut out: Vec<String> = Vec::new();
    let mut i: usize = 0;
    proof {
        assert(crate::lists::views_of(out@) =~= crate::text::lex_sort(msv.take(0))) by {
            assert(msv.take(0) =~= Seq::<Seq<char>>::empty());
        }
    }
    while i < ms.len()
        invariant
            i <= ms@.len(),
            msv == crate::lists::views_of(ms@),
            crate::lists::views_of(out@) == crate::text::lex_sort(msv.take(i as int)),
        decreases ms@.len() - i,
    {
        let ghost pre = crate::lists::views_of(out@);
        let x = ms[i].clone();
        let mut p: usize = 0;
        while p < out.len() && !crate::text::str_lex_lt(x.as_str(), out[p].as_str())
            invariant
                p <= out@.len(),
                x@ == msv[i as int],
                crate::lists::views_of(out@) == pre,
                forall|j: int|
                    0 <= j < p ==> !crate::text::lex_lt(x@, #[trigger] pre[j]),
            decreases out@.len() - p,
        {
            proof {
                assert(pre[p as int] == out@[p as int]@);
            }
            p = p + 1;
        }
        proof {
            if p < out@.len() {
                assert(crate::text::lex_lt(x@, pre[p as int]));
            }
            crate::text::lemma_lex_insert_at(pre, x@, p as int);
        }
        out.insert(p, x);
        proof {
            assert(crate::lists::views_of(out@) =~= pre.insert(p as int, msv[i as int]));
            assert(msv.take(i + 1 as int).drop_last() =~= msv.take(i as int));
            assert(msv.take(i + 1 as int).last() == msv[i as int]);
        }
        i = i + 1;
    }
    proof {
        assert(msv.take(ms@.len() as int) =~= msv);
    }
    out
}

} // verus!
