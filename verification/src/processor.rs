//! The per-homeserver event processor: poll-response decomposition, cursor
//! handling, and the strictly sequential line loop.
//!
//! One processor works one feed line at a time, in feed order.  A
//! `cursor:` line updates and persists the resumption cursor immediately, so
//! a crash afterwards never reprocesses what came before it; any other line
//! is parsed and dispatched; a line that fails to parse or to apply never
//! aborts the batch.  Each line's effect is pinned by [`line_step`] and a
//! whole run by the chain [`lines_rel`].
//!
//! The cooperative shutdown flag is a monotone outside signal: the caller
//! passes the check index at which the flag first reads raised, and the
//! loop provably processes exactly the lines before that point.

use crate::events::{parse_event, parse_line, Moderation};
use crate::handlers::{event_step, handle_event, same_cache};
use crate::lists::views_of;
use crate::retry::RetryQueue;
use crate::store::{CacheStore, GraphStore};
use crate::text::{is_prefix_of, str_drop_prefix, str_find, str_starts_with};
use vstd::prelude::*;

verus! {

/// A character the feed treats as blank.
pub open spec fn is_space(c: char) -> bool {
    c == ' ' || c == '\n' || c == '\t' || c == '\r'
}

/// How many blank characters `s` starts with.
pub open spec fn lead_spaces(s: Seq<char>) -> int
    decreases s.len(),
{
    if s.len() == 0 {
        0
    } else if is_space(s[0]) {
        1 + lead_spaces(s.drop_first())
    } else {
        0
    }
}

/// How many blank characters `s` ends with.
pub open spec fn trail_spaces(s: Seq<char>) -> int
    decreases s.len(),
{
    if s.len() == 0 {
        0
    } else if is_space(s.last()) {
        1 + trail_spaces(s.drop_last())
    } else {
        0
    }
}

/// `s` without leading and trailing blanks.
pub open spec fn trim_of(s: Seq<char>) -> Seq<char> {
    if lead_spaces(s) == s.len() {
        Seq::empty()
    } else {
        s.subrange(lead_spaces(s), s.len() - trail_spaces(s))
    }
}

proof fn lemma_lead_spaces(s: Seq<char>)
    ensures
        0 <= lead_spaces(s) <= s.len(),
        forall|j: int| 0 <= j < lead_spaces(s) ==> is_space(#[trigger] s[j]),
        lead_spaces(s) < s.len() ==> !is_space(s[lead_spaces(s)]),
    decreases s.len(),
{
    if s.len() > 0 && is_space(s[0]) {
        lemma_lead_spaces(s.drop_first());
        assert forall|j: int| 0 <= j < lead_spaces(s) implies is_space(#[trigger] s[j]) by {
            if j > 0 {
                assert(s.drop_first()[j - 1] == s[j]);
            }
        }
        if lead_spaces(s) < s.len() {
            assert(s.drop_first()[lead_spaces(s) - 1] == s[lead_spaces(s)]);
        }
    }
}

proof fn lemma_trail_spaces(s: Seq<char>)
    ensures
        0 <= trail_spaces(s) <= s.len(),
        forall|j: int| s.len() - trail_spaces(s) <= j < s.len() ==> is_space(#[trigger] s[j]),
        trail_spaces(s) < s.len() ==> !is_space(s[s.len() - trail_spaces(s) - 1]),
    decreases s.len(),
{
    if s.len() > 0 && is_space(s.last()) {
        lemma_trail_spaces(s.drop_last());
        assert forall|j: int| s.len() - trail_spaces(s) <= j < s.len() implies is_space(
            #[trigger] s[j],
        ) by {
            if j < s.len() - 1 {
                assert(s.drop_last()[j] == s[j]);
            }
        }
        if trail_spaces(s) < s.len() {
            assert(s.drop_last()[s.len() - trail_spaces(s) - 1] == s[s.len() - trail_spaces(s)
                - 1]);
        }
    }
}

/// Whether the feed treats `c` as blank.
fn blank(c: char) -> (r: bool)
    ensures
        r == is_space(c),
{
    c == ' ' || c == '\n' || c == '\t' || c == '\r'
}

/// Drop leading and trailing blanks.
pub fn trim_blanks(s: &str) -> (r: String)
    ensures
        r@ == trim_of(s@),
{
    proof {
        lemma_lead_spaces(s@);
        lemma_trail_spaces(s@);
    }
    let n = s.unicode_len();
    let mut a: usize = 0;
    while a < n && blank(s.get_char(a))
        invariant
            a <= n,
            n == s@.len(),
            forall|j: int| 0 <= j < a ==> is_space(#[trigger] s@[j]),
            a <= lead_spaces(s@),
        decreases n - a,
    {
        proof {
            lemma_lead_spaces(s@);
            if a + 1 > lead_spaces(s@) {
                assert(lead_spaces(s@) < s@.len());
                assert(!is_space(s@[lead_spaces(s@)]));
            }
        }
        a = a + 1;
    }
    if a == n {
        proof {
            assert(lead_spaces(s@) == n);
        }
        return String::new();
    }
    proof {
        assert(!is_space(s@[a as int]));
        assert(a as int == lead_spaces(s@)) by {
            if (a as int) < lead_spaces(s@) {
                assert(is_space(s@[a as int]));
            }
        }
    }
    let mut b: usize = n;
    while b > a + 1 && blank(s.get_char(b - 1))
        invariant
            a < b <= n,
            n == s@.len(),
            forall|j: int| b <= j < n ==> is_space(#[trigger] s@[j]),
            n - b <= trail_spaces(s@),
        decreases b,
    {
        proof {
            lemma_trail_spaces(s@);
            if n - (b - 1) > trail_spaces(s@) {
                assert(trail_spaces(s@) < s@.len());
                assert(!is_space(s@[s@.len() - trail_spaces(s@) - 1]));
                assert(s@.len() - trail_spaces(s@) - 1 >= b - 1);
                if s@.len() - trail_spaces(s@) - 1 > b - 1 {
                    assert(is_space(s@[s@.len() - trail_spaces(s@) - 1]));
                }
            }
        }
        b = b - 1;
    }
    proof {
        assert(!is_space(s@[b - 1]) || b == a + 1);
        assert(n - b == trail_spaces(s@)) by {
            if (n - b) < trail_spaces(s@) {
                assert(s@.len() - trail_spaces(s@) - 1 < b);
                assert(s@.len() - trail_spaces(s@) <= b - 1);
                assert(is_space(s@[b - 1]));
                assert(b - 1 >= a + 1 || b == a + 1);
                if b == a + 1 {
                    assert(s@.len() - trail_spaces(s@) <= a);
                    assert(is_space(s@[a as int]));
                } else {
                    assert(false);
                }
            }
        }
    }
    let cut = s.substring_char(a, b);
    cut.to_owned()
}

/// The feed's newline-separated segments.
pub open spec fn split_lines(s: Seq<char>) -> Seq<Seq<char>>
    decreases s.len(),
{
    match crate::events::first_index(s, '\n') {
        None => seq![s],
        Some(i) => if 0 <= i < s.len() {
            seq![s.subrange(0, i)] + split_lines(s.subrange(i + 1, s.len() as int))
        } else {
            seq![s]
        },
    }
}

/// Split a poll response body into lines.
fn split_lines_exec(s: &str) -> (r: Vec<String>)
    ensures
        views_of(r@) == split_lines(s@),
    decreases s@.len(),
{
    proof {
        crate::events::lemma_first_index(s@, '\n');
    }
    match str_find(s, '\n') {
        None => {
            proof {
                if crate::events::first_index(s@, '\n') is Some {
                    let i = choose|i: int| 0 <= i < s@.len() && s@[i] == '\n';
                }
            }
            let mut v: Vec<String> = Vec::new();
            v.push(s.to_owned());
            proof {
                assert(views_of(v@) =~= seq![s@]);
            }
            v
        },
        Some(i) => {
            proof {
                match crate::events::first_index(s@, '\n') {
                    Some(fi) => {
                        if fi < i {
                            assert(s@[fi] != '\n');
                        }
                        if (i as int) < fi {
                            assert(s@[i as int] != '\n');
                        }
                        assert(fi == i as int);
                    },
                    None => {
                        assert(s@[i as int] != '\n');
                    },
                }
            }
            let n = s.unicode_len();
            let head = s.substring_char(0, i).to_owned();
            let rest = s.substring_char(i + 1, n);
            let mut v = split_lines_exec(rest);
            let ghost tailviews = views_of(v@);
            v.insert(0, head);
            proof {
                assert(views_of(v@) =~= seq![s@.subrange(0, i as int)] + tailviews) by {
                    assert(views_of(v@).len() == tailviews.len() + 1);
                    assert(views_of(v@)[0] == s@.subrange(0, i as int));
                    assert(forall|j: int|
                        1 <= j < v@.len() ==> #[trigger] views_of(v@)[j] == tailviews[j - 1]);
                }
            }
            v
        },
    }
}

/// Decompose a poll response: `None` means no new events (an empty or
/// whitespace-only body); otherwise the lines, in feed order.
pub fn parse_poll_response(text: &str) -> (r: Option<Vec<String>>)
    ensures
        match r {
            None => trim_of(text@).len() == 0,
            Some(v) => trim_of(text@).len() > 0 && views_of(v@) == split_lines(trim_of(text@)),
        },
{
    let t = trim_blanks(text);
    if t.as_str().unicode_len() == 0 {
        None
    } else {
        Some(split_lines_exec(t.as_str()))
    }
}

/// The prefix that marks a cursor line.
pub open spec fn cursor_marker() -> Seq<char> {
    "cursor: "@
}

/// One homeserver: its stable identity and its resumption cursor.  The
/// cursor is mutated only by this homeserver's own processor.
pub struct Homeserver {
    pub id: String,
    pub cursor: String,
}

impl Homeserver {
    /// A homeserver first discovered, with the initial cursor.
    pub fn new(id: String) -> (r: Self)
        ensures
            r.id == id,
            r.cursor@ == "0"@,
    {
        Homeserver { id, cursor: "0".to_owned() }
    }

    /// Persist the cursor into the cache index store.
    pub fn put_to_index(&self, cache: &mut CacheStore)
        requires
            old(cache).cursors.wf(),
        ensures
            final(cache).cursors.wf(),
            final(cache).cursors.spec_get(self.id@) == Some(self.cursor),
            forall|q: Seq<char>|
                q != self.id@ ==> #[trigger] final(cache).cursors.spec_get(q) == old(
                    cache,
                ).cursors.spec_get(q),
            final(cache).user_counts == old(cache).user_counts,
            final(cache).user_details == old(cache).user_details,
            final(cache).search == old(cache).search,
            final(cache).post_counts == old(cache).post_counts,
            final(cache).post_details == old(cache).post_details,
            final(cache).post_relationships == old(cache).post_relationships,
            final(cache).bookmarks == old(cache).bookmarks,
            final(cache).following == old(cache).following,
            final(cache).followers == old(cache).followers,
            final(cache).muted == old(cache).muted,
            final(cache).user_tags == old(cache).user_tags,
            final(cache).post_tags == old(cache).post_tags,
            final(cache).taggers == old(cache).taggers,
            final(cache).tag_search == old(cache).tag_search,
    {
        cache.cursors.insert(self.id.as_str(), self.cursor.clone());
    }
}

/// What one feed line does: a cursor line moves and persists the cursor; a
/// well-formed event line is dispatched; a malformed line changes nothing.
pub open spec fn line_step(
    pre_c: CacheStore,
    post_c: CacheStore,
    pre_r: RetryQueue,
    post_r: RetryQueue,
    pre_cur: Seq<char>,
    post_cur: Seq<char>,
    hs_id: Seq<char>,
    graph: GraphStore,
    m: Moderation,
    line: Seq<char>,
) -> bool {
    if is_prefix_of(cursor_marker(), line) {
        let c = line.subrange(cursor_marker().len() as int, line.len() as int);
        &&& post_cur == c
        &&& post_r == pre_r
        &&& post_c.cursors.wf()
        &&& match post_c.cursors.spec_get(hs_id) {
            Some(s) => s@ == c,
            None => false,
        }
        &&& forall|q: Seq<char>|
            q != hs_id ==> #[trigger] post_c.cursors.spec_get(q) == pre_c.cursors.spec_get(q)
        &&& crate::handlers::same_user_proj(pre_c, post_c)
        &&& crate::handlers::same_post_proj(pre_c, post_c)
        &&& crate::handlers::same_follow_proj(pre_c, post_c)
        &&& crate::handlers::same_tag_proj(pre_c, post_c)
    } else {
        &&& post_cur == pre_cur
        &&& match parse_line(line) {
            None => same_cache(pre_c, post_c) && post_r == pre_r,
            Some(ev) => event_step(pre_c, post_c, pre_r, post_r, graph, m, ev),
        }
    }
}

/// A whole batch, line by line, in feed order.
pub open spec fn lines_rel(
    pre_c: CacheStore,
    post_c: CacheStore,
    pre_r: RetryQueue,
    post_r: RetryQueue,
    pre_cur: Seq<char>,
    post_cur: Seq<char>,
    hs_id: Seq<char>,
    graph: GraphStore,
    m: Moderation,
    lines: Seq<Seq<char>>,
) -> bool
    decreases lines.len(),
{
    if lines.len() == 0 {
        post_c == pre_c && post_r == pre_r && post_cur == pre_cur
    } else {
        exists|mc: CacheStore, mr: RetryQueue, mcur: Seq<char>|
            #![trigger line_step(pre_c, mc, pre_r, mr, pre_cur, mcur, hs_id, graph, m, lines[0])]
            line_step(pre_c, mc, pre_r, mr, pre_cur, mcur, hs_id, graph, m, lines[0]) && lines_rel(
                mc,
                post_c,
                mr,
                post_r,
                mcur,
                post_cur,
                hs_id,
                graph,
                m,
                lines.drop_first(),
            )
    }
}

proof fn lemma_lines_rel_snoc(
    pre_c: CacheStore,
    mid_c: CacheStore,
    post_c: CacheStore,
    pre_r: RetryQueue,
    mid_r: RetryQueue,
    post_r: RetryQueue,
    pre_cur: Seq<char>,
    mid_cur: Seq<char>,
    post_cur: Seq<char>,
    hs_id: Seq<char>,
    graph: GraphStore,
    m: Moderation,
    lines: Seq<Seq<char>>,
    l: Seq<char>,
)
    requires
        lines_rel(pre_c, mid_c, pre_r, mid_r, pre_cur, mid_cur, hs_id, graph, m, lines),
        line_step(mid_c, post_c, mid_r, post_r, mid_cur, post_cur, hs_id, graph, m, l),
    ensures
        lines_rel(pre_c, post_c, pre_r, post_r, pre_cur, post_cur, hs_id, graph, m, lines.push(l)),
    decreases lines.len(),
{
    let ls = lines.push(l);
    assert(ls[0] == if lines.len() == 0 {
        l
    } else {
        lines[0]
    });
    assert(ls.drop_first() =~= if lines.len() == 0 {
        Seq::<Seq<char>>::empty()
    } else {
        lines.drop_first().push(l)
    });
    if lines.len() == 0 {
        assert(line_step(pre_c, post_c, pre_r, post_r, pre_cur, post_cur, hs_id, graph, m, ls[0]));
        assert(lines_rel(
            post_c,
            post_c,
            post_r,
            post_r,
            post_cur,
            post_cur,
            hs_id,
            graph,
            m,
            ls.drop_first(),
        ));
    } else {
        let (mc, mr, mcur) = choose|mc: CacheStore, mr: RetryQueue, mcur: Seq<char>|
            #![trigger line_step(pre_c, mc, pre_r, mr, pre_cur, mcur, hs_id, graph, m, lines[0])]
            line_step(pre_c, mc, pre_r, mr, pre_cur, mcur, hs_id, graph, m, lines[0]) && lines_rel(
                mc,
                mid_c,
                mr,
                mid_r,
                mcur,
                mid_cur,
                hs_id,
                graph,
                m,
                lines.drop_first(),
            );
        lemma_lines_rel_snoc(
            mc,
            mid_c,
            post_c,
            mr,
            mid_r,
            post_r,
            mcur,
            mid_cur,
            post_cur,
            hs_id,
            graph,
            m,
            lines.drop_first(),
            l,
        );
        assert(line_step(pre_c, mc, pre_r, mr, pre_cur, mcur, hs_id, graph, m, ls[0]));
    }
}

/// How many lines a run processes before the shutdown flag stops it: all of
/// them, unless the flag reads raised at an earlier check.
pub open spec fn processed_upto(total: nat, shutdown_at: Option<usize>) -> nat {
    match shutdown_at {
        Some(a) => if (a as nat) < total {
            a as nat
        } else {
            total
        },
        None => total,
    }
}

/// Shutdown responsiveness: the cut never reaches past the point where the
/// flag first read raised, so no unit of work after it is ever begun; an
/// unraised flag lets the whole batch run.
pub proof fn lemma_shutdown_cut(total: nat, shutdown_at: Option<usize>)
    ensures
        processed_upto(total, shutdown_at) <= total,
        shutdown_at is Some ==> processed_upto(total, shutdown_at) <= shutdown_at->0,
        shutdown_at is None ==> processed_upto(total, shutdown_at) == total,
{
}

/// One per-homeserver event processor.
pub struct EventProcessor {
    pub homeserver: Homeserver,
    /// The page size of one poll.
    pub limit: u32,
    pub moderation: Moderation,
}

/// What one run of a processor reported.
#[derive(Clone, Copy, PartialEq, Eq, Structural)]
pub enum PollOutcome {
    /// The poll body was empty or whitespace-only.
    NoNewEvents,
    /// The lines were processed, up to the shutdown point.
    Processed,
}

impl EventProcessor {
    pub fn new(homeserver: Homeserver, limit: u32, moderation: Moderation) -> (r: Self)
        ensures
            r.homeserver == homeserver,
            r.limit == limit,
            r.moderation == moderation,
    {
        EventProcessor { homeserver, limit, moderation }
    }

    /// Build a processor for one homeserver: it must be part of the graph's
    /// population, and it resumes from its persisted cursor, or from the
    /// beginning on first discovery.  An unknown homeserver cannot be built.
    pub fn build(
        cache: &CacheStore,
        graph: &GraphStore,
        moderation: &Moderation,
        limit: u32,
        homeserver_id: &str,
    ) -> (r: Option<EventProcessor>)
        ensures
            match r {
                Some(p) => {
                    &&& views_of(graph.homeserver_ids@).contains(homeserver_id@)
                    &&& p.homeserver.id@ == homeserver_id@
                    &&& p.limit == limit
                    &&& p.moderation.id@ == moderation.id@
                    &&& views_of(p.moderation.tags@) == views_of(moderation.tags@)
                    &&& p.homeserver.cursor@ == match cache.cursors.spec_get(homeserver_id@) {
                        Some(c) => c@,
                        None => "0"@,
                    }
                },
                None => !views_of(graph.homeserver_ids@).contains(homeserver_id@),
            },
    {
        if !crate::lists::contains_string(&graph.homeserver_ids, homeserver_id) {
            return None;
        }
        let mut homeserver = Homeserver::new(homeserver_id.to_owned());
        match cache.cursors.get(homeserver_id) {
            Some(c) => {
                homeserver.cursor = c.clone();
            },
            None => {},
        }
        Some(EventProcessor { homeserver, limit, moderation: moderation.duplicate() })
    }

    /// Process a batch of feed lines in order.  Before each line the
    /// cooperative shutdown flag is observed — `shutdown_at` is the check at
    /// which it first reads raised — and the loop exits early, without
    /// error, from that line on.  A cursor line persists the cursor
    /// immediately; a malformed or failing line never aborts the batch.
    pub fn process_event_lines(
        &mut self,
        cache: &mut CacheStore,
        graph: &GraphStore,
        retry: &mut RetryQueue,
        lines: &Vec<String>,
        shutdown_at: Option<usize>,
    ) -> (r: Result<(), ()>)
        requires
            old(cache).wf(),
            old(retry).wf(),
        ensures
            final(cache).wf(),
            final(retry).wf(),
            r is Ok,
            final(self).homeserver.id == old(self).homeserver.id,
            final(self).limit == old(self).limit,
            final(self).moderation == old(self).moderation,
            lines_rel(
                *old(cache),
                *final(cache),
                *old(retry),
                *final(retry),
                old(self).homeserver.cursor@,
                final(self).homeserver.cursor@,
                old(self).homeserver.id@,
                *graph,
                old(self).moderation,
                views_of(lines@).take(
                    processed_upto(lines@.len(), shutdown_at) as int,
                ),
            ),
    {
        let ghost hs_id = self.homeserver.id@;
        let ghost m = self.moderation;
        let end: usize = match shutdown_at {
            Some(a) => {
                if a < lines.len() {
                    a
                } else {
                    lines.len()
                }
            },
            None => lines.len(),
        };
        let mut i: usize = 0;
        proof {
            assert(views_of(lines@).take(0) =~= Seq::<Seq<char>>::empty());
        }
        while i < end
            invariant
                i <= end <= lines@.len(),
                end as nat == processed_upto(lines@.len(), shutdown_at),
                cache.wf(),
                retry.wf(),
                self.homeserver.id == old(self).homeserver.id,
                self.limit == old(self).limit,
                self.moderation == old(self).moderation,
                hs_id == old(self).homeserver.id@,
                m == old(self).moderation,
                lines_rel(
                    *old(cache),
                    *cache,
                    *old(retry),
                    *retry,
                    old(self).homeserver.cursor@,
                    self.homeserver.cursor@,
                    hs_id,
                    *graph,
                    m,
                    views_of(lines@).take(i as int),
                ),
            decreases end - i,
        {
            let ghost pre_c = *cache;
            let ghost pre_r = *retry;
            let ghost pre_cur = self.homeserver.cursor@;
            let line = &lines[i];
            if str_starts_with(line.as_str(), "cursor: ") {
                let cur = str_drop_prefix(line.as_str(), "cursor: ".unicode_len());
                self.homeserver.cursor = cur;
                self.homeserver.put_to_index(cache);
            } else {
                match parse_event(line.as_str()) {
                    Ok(ev) => {
                        let _ = handle_event(cache, graph, &self.moderation, retry, &ev);
                        proof {
                            if is_prefix_of(cursor_marker(), line@) {
                                assert(false);
                            }
                        }
                    },
                    Err(_) => {
                        proof {
                            if is_prefix_of(cursor_marker(), line@) {
                                assert(false);
                            }
                        }
                    },
                }
            }
            proof {
                assert(line_step(
                    pre_c,
                    *cache,
                    pre_r,
                    *retry,
                    pre_cur,
                    self.homeserver.cursor@,
                    hs_id,
                    *graph,
                    m,
                    line@,
                ));
                lemma_lines_rel_snoc(
                    *old(cache),
                    pre_c,
                    *cache,
                    *old(retry),
                    pre_r,
                    *retry,
                    old(self).homeserver.cursor@,
                    pre_cur,
                    self.homeserver.cursor@,
                    hs_id,
                    *graph,
                    m,
                    views_of(lines@).take(i as int),
                    line@,
                );
                assert(views_of(lines@).take(i + 1 as int) =~= views_of(lines@).take(
                    i as int,
                ).push(line@));
            }
            i = i + 1;
        }
        Ok(())
    }

    /// One tick: decompose the poll response the caller fetched from the
    /// homeserver's feed, and process the lines it carries.  An empty or
    /// whitespace-only body means no new events, never an error.
    pub fn run(
        &mut self,
        cache: &mut CacheStore,
        graph: &GraphStore,
        retry: &mut RetryQueue,
        response_text: &str,
        shutdown_at: Option<usize>,
    ) -> (r: PollOutcome)
        requires
            old(cache).wf(),
            old(retry).wf(),
        ensures
            final(cache).wf(),
            final(retry).wf(),
            final(self).homeserver.id == old(self).homeserver.id,
            ({
                let lines = split_lines(trim_of(response_text@));
                match r {
                    PollOutcome::NoNewEvents => trim_of(response_text@).len() == 0 && *final(cache)
                        == *old(cache) && *final(retry) == *old(retry) && *final(self) == *old(self),
                    PollOutcome::Processed => trim_of(response_text@).len() > 0 && lines_rel(
                        *old(cache),
                        *final(cache),
                        *old(retry),
                        *final(retry),
                        old(self).homeserver.cursor@,
                        final(self).homeserver.cursor@,
                        old(self).homeserver.id@,
                        *graph,
                        old(self).moderation,
                        lines.take(processed_upto(lines.len(), shutdown_at) as int),
                    ),
                }
            }),
    {
        match parse_poll_response(response_text) {
            None => PollOutcome::NoNewEvents,
            Some(lines) => {
                let _ = self.process_event_lines(cache, graph, retry, &lines, shutdown_at);
                PollOutcome::Processed
            },
        }
    }
}

} // verus!
