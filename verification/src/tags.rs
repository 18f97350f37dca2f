//! Tag projections: the ranked labels of a user, each with its taggers,
//! read cache-aside — the cache answers first, the graph store answers a
//! miss as the source of truth, and the miss repopulates the cache.
//!
//! One batched pass serves many users: the label rankings come from the
//! score sets in one pipelined batch, bounded by `limit_tags` after
//! `skip_tags`, and each ranked label's taggers from the taggers sets,
//! bounded by `limit_taggers`.  A user whose ranking the cache does not
//! hold is served from the graph's aggregated answer and has that answer
//! installed — each label ranked by its tagger count — so the next read
//! hits the cache; a user unknown to both yields `None`, never an error.

use crate::records::TagDetails;
use crate::scores::{entry_views, lemma_score_in_after_put, score_in};
use crate::store::{distinct_labels, key2, make_key2, CacheStore, GraphStore};
use vstd::prelude::*;

verus! {

/// What one tag answer means.
pub struct TagDetailsView {
    pub label: Seq<char>,
    pub taggers: Seq<Seq<char>>,
}

/// The views of a tag answer list.
pub open spec fn tag_views(v: Seq<TagDetails>) -> Seq<TagDetailsView> {
    v.map_values(
        |d: TagDetails| TagDetailsView { label: d.label@, taggers: crate::lists::views_of(d.taggers@) },
    )
}

/// The `skip`/`limit` page of a ranking, highest scores first.
pub open spec fn page_entries(s: Seq<(Seq<char>, u64)>, skip: usize, limit: usize) -> Seq<
    (Seq<char>, u64),
> {
    let e = if skip > s.len() {
        skip as int
    } else if skip + limit < s.len() {
        skip + limit
    } else {
        s.len() as int
    };
    if skip >= s.len() {
        Seq::empty()
    } else {
        s.subrange(skip as int, e)
    }
}

/// The first `limit` taggers of `label` on the tagged entity — a user id,
/// or a post's `key2(author, post)` key.
pub open spec fn taggers_page_of(
    cache: CacheStore,
    target: Seq<char>,
    label: Seq<char>,
    limit: usize,
) -> Seq<Seq<char>> {
    let ms = cache.taggers.members(key2(target, label));
    if (limit as nat) < ms.len() {
        ms.take(limit as int)
    } else {
        ms
    }
}

/// The answers a ranked page yields: one per label whose live count is at
/// least one, with its taggers bounded by `limit_taggers`.
pub open spec fn details_from(
    cache: CacheStore,
    target: Seq<char>,
    page: Seq<(Seq<char>, u64)>,
    limit_taggers: usize,
) -> Seq<TagDetailsView>
    decreases page.len(),
{
    if page.len() == 0 {
        Seq::empty()
    } else {
        let rest = details_from(cache, target, page.drop_first(), limit_taggers);
        if page[0].1 >= 1 {
            seq![
                TagDetailsView {
                    label: page[0].0,
                    taggers: taggers_page_of(cache, target, page[0].0, limit_taggers),
                },
            ] + rest
        } else {
            rest
        }
    }
}

proof fn lemma_details_from_snoc(
    cache: CacheStore,
    target: Seq<char>,
    page: Seq<(Seq<char>, u64)>,
    x: (Seq<char>, u64),
    limit_taggers: usize,
)
    ensures
        details_from(cache, target, page.push(x), limit_taggers) == if x.1 >= 1 {
            details_from(cache, target, page, limit_taggers).push(
                (TagDetailsView {
                    label: x.0,
                    taggers: taggers_page_of(cache, target, x.0, limit_taggers),
                }),
            )
        } else {
            details_from(cache, target, page, limit_taggers)
        },
    decreases page.len(),
{
    let p1 = page.push(x);
    let dx = TagDetailsView { label: x.0, taggers: taggers_page_of(cache, target, x.0, limit_taggers) };
    if page.len() == 0 {
        assert(p1[0] == x);
        assert(p1.drop_first() =~= page);
        assert(details_from(cache, target, page, limit_taggers) == Seq::<TagDetailsView>::empty());
        if x.1 >= 1 {
            assert(seq![dx] + Seq::<TagDetailsView>::empty() =~= Seq::<
                TagDetailsView,
            >::empty().push(dx));
        }
    } else {
        assert(p1[0] == page[0]);
        assert(p1.drop_first() =~= page.drop_first().push(x));
        lemma_details_from_snoc(cache, target, page.drop_first(), x, limit_taggers);
        let rest = details_from(cache, target, page.drop_first(), limit_taggers);
        if page[0].1 >= 1 && x.1 >= 1 {
            let d0 = TagDetailsView {
                label: page[0].0,
                taggers: taggers_page_of(cache, target, page[0].0, limit_taggers),
            };
            assert(seq![d0] + rest.push(dx) =~= (seq![d0] + rest).push(dx));
        }
    }
}

/// The tags answer for one user, from the cache alone: `None` when the
/// user's ranking does not exist there.
pub open spec fn cached_tags_of(
    cache: CacheStore,
    user: Seq<char>,
    skip_tags: usize,
    limit_tags: usize,
    limit_taggers: usize,
) -> Option<Seq<TagDetailsView>> {
    match cache.user_tags.ranking(user) {
        None => None,
        Some(entries) => Some(
            details_from(cache, user, page_entries(entries, skip_tags, limit_tags), limit_taggers),
        ),
    }
}

/// The tags answer for one user, cache first, graph as fallback.
pub open spec fn tags_of(
    cache: CacheStore,
    graph: GraphStore,
    user: Seq<char>,
    skip_tags: usize,
    limit_tags: usize,
    limit_taggers: usize,
) -> Option<Seq<TagDetailsView>> {
    match cached_tags_of(cache, user, skip_tags, limit_tags, limit_taggers) {
        Some(d) => Some(d),
        None => match graph.user_tags.spec_get(user) {
            Some(list) => Some(tag_views(list@)),
            None => None,
        },
    }
}

/// Whether an answer for one user is exactly the specified one.
pub open spec fn answer_matches(
    cache: CacheStore,
    graph: GraphStore,
    user: Seq<char>,
    st: usize,
    lt: usize,
    lg: usize,
    r: Option<Vec<TagDetails>>,
) -> bool {
    match r {
        Some(v) => tags_of(cache, graph, user, st, lt, lg) == Some(tag_views(v@)),
        None => tags_of(cache, graph, user, st, lt, lg) is None,
    }
}

/// Every family a tag read never writes is untouched: only the per-user
/// rankings and the taggers sets may move, and only by repopulation.
pub open spec fn same_except_tag_read(a: CacheStore, b: CacheStore) -> bool {
    &&& b.user_counts == a.user_counts
    &&& b.user_details == a.user_details
    &&& b.search == a.search
    &&& b.post_counts == a.post_counts
    &&& b.post_details == a.post_details
    &&& b.post_relationships == a.post_relationships
    &&& b.bookmarks == a.bookmarks
    &&& b.following == a.following
    &&& b.followers == a.followers
    &&& b.muted == a.muted
    &&& b.post_tags == a.post_tags
    &&& b.tag_search == a.tag_search
    &&& b.cursors == a.cursors
}

/// The cache after a miss installed the graph's aggregated answer for one
/// user: the user's ranking now exists, each of the answer's labels reads
/// exactly its tagger count, every listed tagger is in that label's taggers
/// set, and nothing else moved.
pub open spec fn repopulated_user_tags(
    pre: CacheStore,
    post: CacheStore,
    user: Seq<char>,
    listv: Seq<TagDetailsView>,
) -> bool {
    &&& post.user_tags.wf()
    &&& post.taggers.wf()
    &&& post.user_tags.ranking(user) is Some || listv.len() == 0
    &&& forall|i: int|
        0 <= i < listv.len() ==> #[trigger] score_in(post.user_tags.entries(user), listv[i].label)
            == Some(listv[i].taggers.len() as u64)
    &&& forall|i: int, j: int|
        0 <= i < listv.len() && 0 <= j < listv[i].taggers.len()
            ==> #[trigger] post.taggers.has_member(
            key2(user, listv[i].label),
            listv[i].taggers[j],
        )
    &&& forall|q: Seq<char>|
        q != user ==> #[trigger] post.user_tags.ranking(q) == pre.user_tags.ranking(q)
    &&& forall|q: Seq<char>|
        (forall|i: int| 0 <= i < listv.len() ==> q != key2(user, listv[i].label))
            ==> #[trigger] post.taggers.members(q) == pre.taggers.members(q)
    &&& same_except_tag_read(pre, post)
}

/// The write-back progress one read owes each queried user: a miss with a
/// non-empty graph answer leaves the user's ranking installed.
pub open spec fn repop_progress(
    pre: CacheStore,
    post: CacheStore,
    graph: GraphStore,
    user: Seq<char>,
) -> bool {
    pre.user_tags.ranking(user) is None ==> match graph.user_tags.spec_get(user) {
        Some(list) => post.user_tags.ranking(user) is Some || list@.len() == 0,
        None => true,
    }
}

/// List of tagger ids, as a taggers answer.
pub struct TagUser(pub Vec<String>);

impl TagUser {
    /// The tag answers one ranked page yields: the labels with a live
    /// count, each with its bounded taggers.
    pub(crate) fn details_for_page(
        cache: &CacheStore,
        target: &str,
        page: &Vec<(String, u64)>,
        limit_taggers: usize,
    ) -> (r: Vec<TagDetails>)
        ensures
            tag_views(r@) == details_from(*cache, target@, entry_views(page@), limit_taggers),
    {
        let ghost pv = entry_views(page@);
        let mut out: Vec<TagDetails> = Vec::new();
        let mut i: usize = 0;
        proof {
            assert(tag_views(out@) =~= details_from(*cache, target@, pv.take(0), limit_taggers))
                by {
                assert(pv.take(0) =~= Seq::<(Seq<char>, u64)>::empty());
            }
        }
        while i < page.len()
            invariant
                i <= page@.len(),
                pv == entry_views(page@),
                tag_views(out@) == details_from(
                    *cache,
                    target@,
                    pv.take(i as int),
                    limit_taggers,
                ),
            decreases page@.len() - i,
        {
            let ghost pre = tag_views(out@);
            proof {
                lemma_details_from_snoc(
                    *cache,
                    target@,
                    pv.take(i as int),
                    pv[i as int],
                    limit_taggers,
                );
                assert(pv.take(i + 1 as int) =~= pv.take(i as int).push(pv[i as int]));
            }
            if page[i].1 >= 1 {
                let tk = make_key2(target, page[i].0.as_str());
                let taggers = cache.taggers.members_page(tk.as_str(), limit_taggers);
                let d = TagDetails { label: page[i].0.clone(), taggers };
                out.push(d);
                proof {
                    assert(tag_views(out@) =~= pre.push(
                        (TagDetailsView {
                            label: pv[i as int].0,
                            taggers: taggers_page_of(
                                *cache,
                                target@,
                                pv[i as int].0,
                                limit_taggers,
                            ),
                        }),
                    ));
                }
            }
            i = i + 1;
        }
        proof {
            assert(pv.take(page@.len() as int) =~= pv);
        }
        out
    }

    /// The ranked tags of one user from the cache's score sets: the paged
    /// labels with a live count, each with its bounded taggers.
    fn get_from_index_one(
        cache: &CacheStore,
        user_id: &str,
        skip_tags: usize,
        limit_tags: usize,
        limit_taggers: usize,
    ) -> (r: Option<Vec<TagDetails>>)
        ensures
            match r {
                Some(v) => cached_tags_of(*cache, user_id@, skip_tags, limit_tags, limit_taggers)
                    == Some(tag_views(v@)),
                None => cached_tags_of(*cache, user_id@, skip_tags, limit_tags, limit_taggers)
                    is None,
            },
    {
        let page = match cache.user_tags.range(user_id, skip_tags, limit_tags, true) {
            Some(p) => p,
            None => {
                return None;
            },
        };
        proof {
            assert(entry_views(page@) =~= page_entries(
                cache.user_tags.entries(user_id@),
                skip_tags,
                limit_tags,
            ));
        }
        Some(Self::details_for_page(cache, user_id, &page, limit_taggers))
    }

    /// The graph's aggregated answer for one user, copied out.
    fn graph_tags_for(list: &Vec<TagDetails>) -> (r: Vec<TagDetails>)
        ensures
            tag_views(r@) == tag_views(list@),
    {
        let mut out: Vec<TagDetails> = Vec::new();
        let mut i: usize = 0;
        proof {
            assert(tag_views(out@) =~= tag_views(list@).take(0));
        }
        while i < list.len()
            invariant
                i <= list@.len(),
                tag_views(out@) == tag_views(list@).take(i as int),
            decreases list@.len() - i,
        {
            let ghost pre = tag_views(out@);
            out.push(list[i].duplicate());
            proof {
                assert(tag_views(out@) =~= pre.push(tag_views(list@)[i as int]));
                assert(tag_views(list@).take(i + 1 as int) =~= tag_views(list@).take(
                    i as int,
                ).push(tag_views(list@)[i as int]));
            }
            i = i + 1;
        }
        proof {
            assert(tag_views(list@).take(list@.len() as int) =~= tag_views(list@));
        }
        out
    }

    /// Install the graph's aggregated answer for one user into the cache:
    /// each label ranked by its tagger count, each tagger in the label's
    /// taggers set.  This is the write-back half of the cache-aside read.
    fn install_user_tags(cache: &mut CacheStore, user_id: &str, list: &Vec<TagDetails>)
        requires
            old(cache).wf(),
            distinct_labels(list@),
        ensures
            final(cache).wf(),
            repopulated_user_tags(*old(cache), *final(cache), user_id@, tag_views(list@)),
    {
        let ghost listv = tag_views(list@);
        let mut i: usize = 0;
        while i < list.len()
            invariant
                i <= list@.len(),
                listv == tag_views(list@),
                distinct_labels(list@),
                cache.wf(),
                i > 0 ==> cache.user_tags.ranking(user_id@) is Some,
                forall|ii: int|
                    0 <= ii < i ==> #[trigger] score_in(
                        cache.user_tags.entries(user_id@),
                        listv[ii].label,
                    ) == Some(listv[ii].taggers.len() as u64),
                forall|q: Seq<char>|
                    q != user_id@ ==> #[trigger] cache.user_tags.ranking(q) == old(
                        cache,
                    ).user_tags.ranking(q),
                forall|ii: int, jj: int|
                    0 <= ii < i && 0 <= jj < listv[ii].taggers.len()
                        ==> #[trigger] cache.taggers.has_member(
                        key2(user_id@, listv[ii].label),
                        listv[ii].taggers[jj],
                    ),
                forall|q: Seq<char>|
                    (forall|ii: int| 0 <= ii < i ==> q != key2(user_id@, listv[ii].label))
                        ==> #[trigger] cache.taggers.members(q) == old(cache).taggers.members(q),
                same_except_tag_read(*old(cache), *cache),
            decreases list@.len() - i,
        {
            let d = &list[i];
            let ghost pre_entries = cache.user_tags.entries(user_id@);
            proof {
                cache.user_tags.lemma_wf_entries(user_id@);
            }
            let count: u64 = d.taggers.len() as u64;
            cache.user_tags.put_score(user_id, d.label.as_str(), count);
            proof {
                assert forall|q: Seq<char>| true implies score_in(
                    cache.user_tags.entries(user_id@),
                    q,
                ) == if q == listv[i as int].label {
                    Some(count)
                } else {
                    score_in(pre_entries, q)
                } by {
                    lemma_score_in_after_put(pre_entries, listv[i as int].label, count, q);
                }
                assert(count == listv[i as int].taggers.len() as u64);
            }
            let tk = make_key2(user_id, d.label.as_str());
            let mut j: usize = 0;
            while j < d.taggers.len()
                invariant
                    j <= d.taggers@.len(),
                    i < list@.len(),
                    listv == tag_views(list@),
                    listv[i as int].taggers == crate::lists::views_of(d.taggers@),
                    listv[i as int].label == d.label@,
                    tk@ == key2(user_id@, listv[i as int].label),
                    distinct_labels(list@),
                    cache.wf(),
                    cache.user_tags.ranking(user_id@) is Some,
                    forall|ii: int|
                        0 <= ii <= i ==> #[trigger] score_in(
                            cache.user_tags.entries(user_id@),
                            listv[ii].label,
                        ) == Some(listv[ii].taggers.len() as u64),
                    forall|q: Seq<char>|
                        q != user_id@ ==> #[trigger] cache.user_tags.ranking(q) == old(
                            cache,
                        ).user_tags.ranking(q),
                    forall|ii: int, jj: int|
                        0 <= ii < i && 0 <= jj < listv[ii].taggers.len()
                            ==> #[trigger] cache.taggers.has_member(
                            key2(user_id@, listv[ii].label),
                            listv[ii].taggers[jj],
                        ),
                    forall|jj: int|
                        0 <= jj < j ==> #[trigger] cache.taggers.has_member(
                            tk@,
                            listv[i as int].taggers[jj],
                        ),
                    forall|q: Seq<char>|
                        (q != tk@ && (forall|ii: int|
                            0 <= ii < i ==> q != key2(user_id@, listv[ii].label)))
                            ==> #[trigger] cache.taggers.members(q) == old(
                            cache,
                        ).taggers.members(q),
                    same_except_tag_read(*old(cache), *cache),
                decreases d.taggers@.len() - j,
            {
                let ghost pre_tg = *cache;
                cache.taggers.add(tk.as_str(), d.taggers[j].as_str());
                proof {
                    let m = listv[i as int].taggers[j as int];
                    assert(cache.taggers.has_member(tk@, m)) by {
                        if !pre_tg.taggers.members(tk@).contains(m) {
                            assert(cache.taggers.members(tk@) == pre_tg.taggers.members(tk@).push(
                                m,
                            ));
                            assert(cache.taggers.members(tk@)[pre_tg.taggers.members(
                                tk@,
                            ).len() as int] == m);
                        }
                    }
                    assert forall|ii: int, jj: int|
                        0 <= ii < i && 0 <= jj < listv[ii].taggers.len()
                            implies #[trigger] cache.taggers.has_member(
                            key2(user_id@, listv[ii].label),
                            listv[ii].taggers[jj],
                        ) by {
                        let k = key2(user_id@, listv[ii].label);
                        let x = listv[ii].taggers[jj];
                        assert(pre_tg.taggers.has_member(k, x));
                        if k == tk@ {
                            if !pre_tg.taggers.members(tk@).contains(m) {
                                let w = choose|w: int|
                                    0 <= w < pre_tg.taggers.members(k).len()
                                        && pre_tg.taggers.members(k)[w] == x;
                                assert(cache.taggers.members(k)[w] == x);
                            }
                        }
                    }
                    assert forall|jj: int| 0 <= jj < j + 1 implies #[trigger] cache.taggers.has_member(
                        tk@,
                        listv[i as int].taggers[jj],
                    ) by {
                        if jj < j {
                            let x = listv[i as int].taggers[jj];
                            assert(pre_tg.taggers.has_member(tk@, x));
                            if !pre_tg.taggers.members(tk@).contains(m) {
                                let w = choose|w: int|
                                    0 <= w < pre_tg.taggers.members(tk@).len()
                                        && pre_tg.taggers.members(tk@)[w] == x;
                                assert(cache.taggers.members(tk@)[w] == x);
                            }
                        }
                    }
                }
                j = j + 1;
            }
            proof {
                assert forall|ii: int, jj: int|
                    0 <= ii < i + 1 && 0 <= jj < listv[ii].taggers.len()
                        implies #[trigger] cache.taggers.has_member(
                        key2(user_id@, listv[ii].label),
                        listv[ii].taggers[jj],
                    ) by {
                    if ii == i as int {
                        assert(cache.taggers.has_member(tk@, listv[i as int].taggers[jj]));
                    }
                }
                assert forall|ii: int|
                    0 <= ii < i + 1 implies #[trigger] score_in(
                        cache.user_tags.entries(user_id@),
                        listv[ii].label,
                    ) == Some(listv[ii].taggers.len() as u64) by {
                    if ii < i as int {
                        assert(listv[ii].label != listv[i as int].label);
                    }
                }
            }
            i = i + 1;
        }
    }

    /// The tags answer for one user from the current state, without the
    /// write-back: what a batched pass serves before it repopulates.
    pub(crate) fn peek_tags(
        cache: &CacheStore,
        graph: &GraphStore,
        user_id: &str,
        skip_tags: usize,
        limit_tags: usize,
        limit_taggers: usize,
    ) -> (r: Option<Vec<TagDetails>>)
        ensures
            answer_matches(*cache, *graph, user_id@, skip_tags, limit_tags, limit_taggers, r),
    {
        match Self::get_from_index_one(cache, user_id, skip_tags, limit_tags, limit_taggers) {
            Some(v) => Some(v),
            None => {
                match graph.user_tags.get(user_id) {
                    Some(list) => Some(Self::graph_tags_for(list)),
                    None => None,
                }
            },
        }
    }

    /// Install the graph's aggregated answer for one user when the cache
    /// still misses it: the write-back a batched pass owes each wanted user.
    pub(crate) fn repopulate_if_missing(cache: &mut CacheStore, graph: &GraphStore, user_id: &str)
        requires
            old(cache).wf(),
            graph.wf(),
        ensures
            final(cache).wf(),
            same_except_tag_read(*old(cache), *final(cache)),
            repop_progress(*old(cache), *final(cache), *graph, user_id@),
    {
        if !cache.user_tags.exists_key(user_id) {
            match graph.user_tags.get(user_id) {
                Some(list) => {
                    proof {
                        assert(crate::store::aggregate_ok(graph.user_tags.spec_get(user_id@)));
                    }
                    Self::install_user_tags(cache, user_id, list);
                },
                None => {},
            }
        }
    }

    /// The tags of one user, cache-aside: the cache answers first, the
    /// graph answers a miss as the source of truth, and a miss repopulates
    /// the cache with the graph's answer.
    pub fn get_by_id(
        cache: &mut CacheStore,
        graph: &GraphStore,
        user_id: &str,
        skip_tags: Option<usize>,
        limit_tags: Option<usize>,
        limit_taggers: Option<usize>,
    ) -> (r: Option<Vec<TagDetails>>)
        requires
            old(cache).wf(),
            graph.wf(),
        ensures
            final(cache).wf(),
            ({
                let st = if skip_tags is Some {
                    skip_tags->0
                } else {
                    0
                };
                let lt = if limit_tags is Some {
                    limit_tags->0
                } else {
                    5
                };
                let lg = if limit_taggers is Some {
                    limit_taggers->0
                } else {
                    5
                };
                &&& match r {
                    Some(v) => tags_of(*old(cache), *graph, user_id@, st, lt, lg) == Some(
                        tag_views(v@),
                    ),
                    None => tags_of(*old(cache), *graph, user_id@, st, lt, lg) is None,
                }
                &&& (old(cache).user_tags.ranking(user_id@) is Some ==> *final(cache) == *old(
                    cache,
                ))
                &&& (old(cache).user_tags.ranking(user_id@) is None ==> match graph.user_tags.spec_get(
                    user_id@,
                ) {
                    Some(list) => repopulated_user_tags(
                        *old(cache),
                        *final(cache),
                        user_id@,
                        tag_views(list@),
                    ),
                    None => *final(cache) == *old(cache),
                })
            }),
    {
        let st: usize = match skip_tags {
            Some(n) => n,
            None => 0,
        };
        let lt: usize = match limit_tags {
            Some(n) => n,
            None => 5,
        };
        let lg: usize = match limit_taggers {
            Some(n) => n,
            None => 5,
        };
        match Self::get_from_index_one(cache, user_id, st, lt, lg) {
            Some(v) => Some(v),
            None => {
                match graph.user_tags.get(user_id) {
                    Some(list) => {
                        let out = Self::graph_tags_for(list);
                        proof {
                            assert(crate::store::aggregate_ok(
                                graph.user_tags.spec_get(user_id@),
                            ));
                        }
                        Self::install_user_tags(cache, user_id, list);
                        Some(out)
                    },
                    None => None,
                }
            },
        }
    }

    /// The tags of many users, cache-aside in one batched pass: every
    /// answer is served from the state the pass started from — rankings in
    /// one pipelined batch — and afterwards every miss with a non-empty
    /// graph answer has its ranking installed.
    pub fn get_by_ids(
        cache: &mut CacheStore,
        graph: &GraphStore,
        user_ids: &Vec<String>,
        skip_tags: Option<usize>,
        limit_tags: Option<usize>,
        limit_taggers: Option<usize>,
    ) -> (r: Vec<Option<Vec<TagDetails>>>)
        requires
            old(cache).wf(),
            graph.wf(),
        ensures
            final(cache).wf(),
            r@.len() == user_ids@.len(),
            same_except_tag_read(*old(cache), *final(cache)),
            ({
                let st = if skip_tags is Some {
                    skip_tags->0
                } else {
                    0
                };
                let lt = if limit_tags is Some {
                    limit_tags->0
                } else {
                    5
                };
                let lg = if limit_taggers is Some {
                    limit_taggers->0
                } else {
                    5
                };
                forall|i: int|
                    0 <= i < user_ids@.len() ==> #[trigger] answer_matches(
                        *old(cache),
                        *graph,
                        user_ids@[i]@,
                        st,
                        lt,
                        lg,
                        r@[i],
                    )
            }),
            forall|i: int|
                0 <= i < user_ids@.len() ==> #[trigger] repop_progress(
                    *old(cache),
                    *final(cache),
                    *graph,
                    user_ids@[i]@,
                ),
    {
        let st: usize = match skip_tags {
            Some(n) => n,
            None => 0,
        };
        let lt: usize = match limit_tags {
            Some(n) => n,
            None => 5,
        };
        let lg: usize = match limit_taggers {
            Some(n) => n,
            None => 5,
        };
        let pages = cache.user_tags.range_many(user_ids, st, lt, true);
        let mut out: Vec<Option<Vec<TagDetails>>> = Vec::new();
        let mut i: usize = 0;
        while i < user_ids.len()
            invariant
                i <= user_ids@.len(),
                out@.len() == i,
                pages@.len() == user_ids@.len(),
                cache.wf(),
                graph.wf(),
                st == if skip_tags is Some {
                    skip_tags->0
                } else {
                    0
                },
                lt == if limit_tags is Some {
                    limit_tags->0
                } else {
                    5
                },
                lg == if limit_taggers is Some {
                    limit_taggers->0
                } else {
                    5
                },
                forall|j: int|
                    0 <= j < pages@.len() ==> #[trigger] crate::scores::range_answer(
                        cache.user_tags,
                        user_ids@[j]@,
                        st,
                        lt,
                        true,
                        pages@[j],
                    ),
                forall|j: int|
                    0 <= j < i ==> #[trigger] answer_matches(
                        *cache,
                        *graph,
                        user_ids@[j]@,
                        st,
                        lt,
                        lg,
                        out@[j],
                    ),
            decreases user_ids@.len() - i,
        {
            proof {
                assert(crate::scores::range_answer(
                    cache.user_tags,
                    user_ids@[i as int]@,
                    st,
                    lt,
                    true,
                    pages@[i as int],
                ));
            }
            let one = match &pages[i] {
                Some(page) => {
                    proof {
                        assert(entry_views(page@) =~= page_entries(
                            cache.user_tags.entries(user_ids@[i as int]@),
                            st,
                            lt,
                        ));
                    }
                    Some(Self::details_for_page(cache, user_ids[i].as_str(), page, lg))
                },
                None => {
                    match graph.user_tags.get(user_ids[i].as_str()) {
                        Some(list) => Some(Self::graph_tags_for(list)),
                        None => None,
                    }
                },
            };
            out.push(one);
            i = i + 1;
        }
        let ghost served = *cache;
        let mut k: usize = 0;
        while k < user_ids.len()
            invariant
                k <= user_ids@.len(),
                cache.wf(),
                graph.wf(),
                same_except_tag_read(served, *cache),
                forall|j: int|
                    0 <= j < k ==> #[trigger] repop_progress(
                        served,
                        *cache,
                        *graph,
                        user_ids@[j]@,
                    ),
                forall|q: Seq<char>|
                    served.user_tags.ranking(q) is Some ==> #[trigger] cache.user_tags.ranking(
                        q,
                    ) is Some,
            decreases user_ids@.len() - k,
        {
            let ghost pre_k = *cache;
            if !cache.user_tags.exists_key(user_ids[k].as_str()) {
                match graph.user_tags.get(user_ids[k].as_str()) {
                    Some(list) => {
                        proof {
                            assert(crate::store::aggregate_ok(
                                graph.user_tags.spec_get(user_ids@[k as int]@),
                            ));
                        }
                        Self::install_user_tags(cache, user_ids[k].as_str(), list);
                    },
                    None => {},
                }
            }
            proof {
                assert forall|j: int| 0 <= j < k + 1 implies #[trigger] repop_progress(
                    served,
                    *cache,
                    *graph,
                    user_ids@[j]@,
                ) by {
                    let u = user_ids@[j]@;
                    if j < k {
                        assert(repop_progress(served, pre_k, *graph, u));
                        if pre_k.user_tags.ranking(u) is Some {
                            if u != user_ids@[k as int]@ {
                                assert(cache.user_tags.ranking(u) == pre_k.user_tags.ranking(u));
                            }
                        }
                    }
                }
            }
            k = k + 1;
        }
        proof {
            assert forall|i2: int| 0 <= i2 < user_ids@.len() implies #[trigger] repop_progress(
                *old(cache),
                *cache,
                *graph,
                user_ids@[i2]@,
            ) by {
                assert(repop_progress(served, *cache, *graph, user_ids@[i2]@));
                assert(served.user_tags == old(cache).user_tags);
            }
        }
        out
    }
}

} // verus!
