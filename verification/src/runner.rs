//! The multi-homeserver runner: one privileged default homeserver on a
//! dedicated path, and a priority-ordered, limit-bounded pool of the rest.
//!
//! `pre_run_all` computes the pool: the priority-ordered homeserver ids from
//! the graph, without the default one, truncated to the monitored limit.
//! `run_all` walks that pool, checking the cooperative shutdown flag before
//! each homeserver and stopping the loop — not just skipping — when it is
//! raised; each homeserver's build-and-run happens outside, under a timeout
//! and a panic boundary, and its result comes back as one [`RunAttempt`],
//! classified into exactly one outcome.  No attempt's failure touches any
//! other homeserver's classification, and `run_default` records exactly one
//! outcome for the default homeserver however the pool behaves.

use crate::store::GraphStore;
use vstd::prelude::*;

verus! {

/// How one homeserver's run ended.
#[derive(Clone, Copy, PartialEq, Eq, Structural)]
pub enum ProcessorRunStatus {
    Success,
    Error,
    Panic,
    Timeout,
    FailedToBuild,
}

/// What the outside build-and-run of one homeserver reported: the processor
/// ran to completion, failed internally, panicked, overran its time bound,
/// or could not even be built.
#[derive(Clone, Copy, PartialEq, Eq, Structural)]
pub enum RunAttempt {
    Completed,
    Internal,
    Panicked,
    TimedOut,
    BuildFailed,
}

/// The outcome each attempt is classified into.
pub open spec fn status_of(a: RunAttempt) -> ProcessorRunStatus {
    match a {
        RunAttempt::Completed => ProcessorRunStatus::Success,
        RunAttempt::Internal => ProcessorRunStatus::Error,
        RunAttempt::Panicked => ProcessorRunStatus::Panic,
        RunAttempt::TimedOut => ProcessorRunStatus::Timeout,
        RunAttempt::BuildFailed => ProcessorRunStatus::FailedToBuild,
    }
}

/// Classify one attempt; every attempt gets exactly one outcome.
pub fn classify_attempt(a: RunAttempt) -> (r: ProcessorRunStatus)
    ensures
        r == status_of(a),
{
    match a {
        RunAttempt::Completed => ProcessorRunStatus::Success,
        RunAttempt::Internal => ProcessorRunStatus::Error,
        RunAttempt::Panicked => ProcessorRunStatus::Panic,
        RunAttempt::TimedOut => ProcessorRunStatus::Timeout,
        RunAttempt::BuildFailed => ProcessorRunStatus::FailedToBuild,
    }
}

/// One homeserver's recorded run: its id, elapsed wall time, and outcome.
pub struct IndividualRunStat {
    pub hs_id: String,
    pub duration_ms: u64,
    pub status: ProcessorRunStatus,
}

/// The view of one recorded run.
pub struct RunStatView {
    pub hs_id: Seq<char>,
    pub duration_ms: u64,
    pub status: ProcessorRunStatus,
}

impl IndividualRunStat {
    pub open spec fn view(self) -> RunStatView {
        RunStatView { hs_id: self.hs_id@, duration_ms: self.duration_ms, status: self.status }
    }
}

/// The views of recorded runs.
pub open spec fn stat_views(s: Seq<IndividualRunStat>) -> Seq<RunStatView> {
    s.map_values(|x: IndividualRunStat| x.view())
}

/// How many recorded runs ended with `st`.
pub open spec fn count_status(s: Seq<RunStatView>, st: ProcessorRunStatus) -> nat
    decreases s.len(),
{
    if s.len() == 0 {
        0
    } else {
        (if s[0].status == st {
            1nat
        } else {
            0nat
        }) + count_status(s.drop_first(), st)
    }
}

/// Every run lands in exactly one outcome bucket, so the buckets partition
/// the pool: their counts add up to the number of homeservers run.
pub proof fn lemma_outcome_partition(s: Seq<RunStatView>)
    ensures
        count_status(s, ProcessorRunStatus::Success) + count_status(s, ProcessorRunStatus::Error)
            + count_status(s, ProcessorRunStatus::Panic) + count_status(
            s,
            ProcessorRunStatus::Timeout,
        ) + count_status(s, ProcessorRunStatus::FailedToBuild) == s.len(),
    decreases s.len(),
{
    if s.len() > 0 {
        lemma_outcome_partition(s.drop_first());
    }
}

proof fn lemma_count_status_le(s: Seq<RunStatView>, st: ProcessorRunStatus)
    ensures
        count_status(s, st) <= s.len(),
    decreases s.len(),
{
    if s.len() > 0 {
        lemma_count_status_le(s.drop_first(), st);
    }
}

proof fn lemma_count_status_snoc(s: Seq<RunStatView>, x: RunStatView, st: ProcessorRunStatus)
    ensures
        count_status(s.push(x), st) == count_status(s, st) + if x.status == st {
            1nat
        } else {
            0nat
        },
    decreases s.len(),
{
    if s.len() == 0 {
        assert(s.push(x)[0] == x);
        assert(s.push(x).drop_first() =~= s);
        assert(count_status(s, st) == 0);
    } else {
        assert(s.push(x)[0] == s[0]);
        assert(s.push(x).drop_first() =~= s.drop_first().push(x));
        lemma_count_status_snoc(s.drop_first(), x, st);
    }
}

/// Per-run statistics of one runner pass.
pub struct RunAllProcessorsStats {
    pub stats: Vec<IndividualRunStat>,
}

impl RunAllProcessorsStats {
    pub open spec fn view(self) -> Seq<RunStatView> {
        stat_views(self.stats@)
    }

    pub fn new() -> (r: Self)
        ensures
            r.view() == Seq::<RunStatView>::empty(),
    {
        let r = RunAllProcessorsStats { stats: Vec::new() };
        proof {
            assert(r.view() =~= Seq::<RunStatView>::empty());
        }
        r
    }

    /// Record one homeserver's outcome.
    pub fn add_run_result(&mut self, hs_id: String, duration_ms: u64, status: ProcessorRunStatus)
        ensures
            final(self).view() == old(self).view().push(
                (RunStatView { hs_id: hs_id@, duration_ms, status }),
            ),
    {
        let ghost pre = self.view();
        self.stats.push(IndividualRunStat { hs_id, duration_ms, status });
        proof {
            assert(self.view() =~= pre.push(self.stats@.last().view()));
        }
    }

    fn count_of(&self, st: ProcessorRunStatus) -> (r: usize)
        ensures
            r == count_status(self.view(), st),
    {
        proof {
            lemma_count_status_le(self.view(), st);
        }
        let mut c: usize = 0;
        let mut i: usize = 0;
        proof {
            assert(count_status(self.view().take(0), st) == 0) by {
                assert(self.view().take(0) =~= Seq::<RunStatView>::empty());
            }
        }
        while i < self.stats.len()
            invariant
                i <= self.stats@.len(),
                c == count_status(self.view().take(i as int), st),
                c <= i,
                self.view().len() == self.stats@.len(),
            decreases self.stats@.len() - i,
        {
            let hit = classify_eq(self.stats[i].status, st);
            proof {
                lemma_count_status_snoc(self.view().take(i as int), self.view()[i as int], st);
                assert(self.view().take(i + 1 as int) =~= self.view().take(i as int).push(
                    self.view()[i as int],
                ));
            }
            if hit {
                c = c + 1;
            }
            i = i + 1;
        }
        proof {
            assert(self.view().take(self.stats@.len() as int) =~= self.view());
        }
        c
    }

    /// How many runs completed.
    pub fn count_ok(&self) -> (r: usize)
        ensures
            r == count_status(self.view(), ProcessorRunStatus::Success),
    {
        self.count_of(ProcessorRunStatus::Success)
    }

    /// How many runs failed with an internal error.
    pub fn count_error(&self) -> (r: usize)
        ensures
            r == count_status(self.view(), ProcessorRunStatus::Error),
    {
        self.count_of(ProcessorRunStatus::Error)
    }

    /// How many runs panicked.
    pub fn count_panic(&self) -> (r: usize)
        ensures
            r == count_status(self.view(), ProcessorRunStatus::Panic),
    {
        self.count_of(ProcessorRunStatus::Panic)
    }

    /// How many runs overran their time bound.
    pub fn count_timeout(&self) -> (r: usize)
        ensures
            r == count_status(self.view(), ProcessorRunStatus::Timeout),
    {
        self.count_of(ProcessorRunStatus::Timeout)
    }

    /// How many processors could not be built.
    pub fn count_failed_to_build(&self) -> (r: usize)
        ensures
            r == count_status(self.view(), ProcessorRunStatus::FailedToBuild),
    {
        self.count_of(ProcessorRunStatus::FailedToBuild)
    }
}

/// Whether two outcomes are the same.
fn classify_eq(a: ProcessorRunStatus, b: ProcessorRunStatus) -> (r: bool)
    ensures
        r == (a == b),
{
    match (a, b) {
        (ProcessorRunStatus::Success, ProcessorRunStatus::Success) => true,
        (ProcessorRunStatus::Error, ProcessorRunStatus::Error) => true,
        (ProcessorRunStatus::Panic, ProcessorRunStatus::Panic) => true,
        (ProcessorRunStatus::Timeout, ProcessorRunStatus::Timeout) => true,
        (ProcessorRunStatus::FailedToBuild, ProcessorRunStatus::FailedToBuild) => true,
        _ => false,
    }
}

/// The summarized statistics handed back to the caller, content unchanged.
pub struct ProcessedStats(pub RunAllProcessorsStats);

/// The priority-ordered pool without the default homeserver, order kept.
pub open spec fn exclude_id(ids: Seq<Seq<char>>, d: Seq<char>) -> Seq<Seq<char>>
    decreases ids.len(),
{
    if ids.len() == 0 {
        ids
    } else if ids[0] == d {
        exclude_id(ids.drop_first(), d)
    } else {
        seq![ids[0]] + exclude_id(ids.drop_first(), d)
    }
}

proof fn lemma_exclude_id_snoc(ids: Seq<Seq<char>>, d: Seq<char>, x: Seq<char>)
    ensures
        exclude_id(ids.push(x), d) == if x == d {
            exclude_id(ids, d)
        } else {
            exclude_id(ids, d).push(x)
        },
    decreases ids.len(),
{
    if ids.len() == 0 {
        let s1 = ids.push(x);
        assert(s1[0] == x);
        assert(s1.drop_first() =~= ids);
        if x != d {
            assert(seq![x] + exclude_id(ids, d) =~= exclude_id(ids, d).push(x));
        }
    } else {
        assert(ids.push(x)[0] == ids[0]);
        assert(ids.push(x).drop_first() =~= ids.drop_first().push(x));
        lemma_exclude_id_snoc(ids.drop_first(), d, x);
        if ids[0] != d && x != d {
            assert(seq![ids[0]] + exclude_id(ids.drop_first(), d).push(x) =~= (seq![ids[0]]
                + exclude_id(ids.drop_first(), d)).push(x));
        }
    }
}

/// Membership in the filtered pool: exactly the other homeservers.
pub proof fn lemma_exclude_id_members(ids: Seq<Seq<char>>, d: Seq<char>)
    ensures
        forall|x: Seq<char>|
            #[trigger] exclude_id(ids, d).contains(x) <==> (ids.contains(x) && x != d),
    decreases ids.len(),
{
    if ids.len() > 0 {
        lemma_exclude_id_members(ids.drop_first(), d);
        let t = exclude_id(ids, d);
        let tr = exclude_id(ids.drop_first(), d);
        assert forall|x: Seq<char>| #[trigger] t.contains(x) <==> (ids.contains(x) && x != d) by {
            if ids[0] == d {
                assert(t == tr);
                if ids.contains(x) && x != d {
                    let i = choose|i: int| 0 <= i < ids.len() && ids[i] == x;
                    assert(i != 0);
                    assert(ids.drop_first()[i - 1] == x);
                }
            } else {
                assert(t == seq![ids[0]] + tr);
                if t.contains(x) {
                    let i = choose|i: int| 0 <= i < t.len() && t[i] == x;
                    if i == 0 {
                        assert(x == ids[0]);
                    } else {
                        assert(tr[i - 1] == x);
                        assert(tr.contains(x));
                        let j = choose|j: int|
                            0 <= j < ids.drop_first().len() && ids.drop_first()[j] == x;
                        assert(ids[j + 1] == x);
                    }
                }
                if ids.contains(x) && x != d {
                    let i = choose|i: int| 0 <= i < ids.len() && ids[i] == x;
                    if i == 0 {
                        assert(t[0] == x);
                    } else {
                        assert(ids.drop_first()[i - 1] == x);
                        assert(tr.contains(x));
                        let j = choose|j: int| 0 <= j < tr.len() && tr[j] == x;
                        assert(t[j + 1] == x);
                    }
                }
            }
        }
    }
}

/// The pool `run_all` walks: the filtered priority order, truncated to the
/// monitored limit.
pub open spec fn pool_of(graph: GraphStore, d: Seq<char>, limit: nat) -> Seq<Seq<char>> {
    let filtered = exclude_id(crate::lists::views_of(graph.homeserver_ids@), d);
    if limit < filtered.len() {
        filtered.take(limit as int)
    } else {
        filtered
    }
}

/// The multi-homeserver runner configuration.
pub struct EventProcessorRunner {
    /// The always-prioritized homeserver, processed on its own path.
    pub default_homeserver: String,
    /// How many of the other homeservers one pass may process.
    pub monitored_homeservers_limit: usize,
}

impl EventProcessorRunner {
    pub fn new(default_homeserver: String, monitored_homeservers_limit: usize) -> (r: Self)
        ensures
            r.default_homeserver == default_homeserver,
            r.monitored_homeservers_limit == monitored_homeservers_limit,
    {
        EventProcessorRunner { default_homeserver, monitored_homeservers_limit }
    }

    /// The homeserver ids relevant for `run_all`, in priority order: all of
    /// the graph's homeservers except the default one, truncated to the
    /// first `monitored_homeservers_limit`.
    pub fn pre_run_all(&self, graph: &GraphStore) -> (r: Vec<String>)
        ensures
            crate::lists::views_of(r@) == pool_of(
                *graph,
                self.default_homeserver@,
                self.monitored_homeservers_limit as nat,
            ),
    {
        let ghost all = crate::lists::views_of(graph.homeserver_ids@);
        let mut filtered: Vec<String> = Vec::new();
        let mut i: usize = 0;
        proof {
            assert(crate::lists::views_of(filtered@) =~= exclude_id(all.take(0), self.default_homeserver@)) by {
                assert(all.take(0) =~= Seq::<Seq<char>>::empty());
            }
        }
        while i < graph.homeserver_ids.len()
            invariant
                i <= graph.homeserver_ids@.len(),
                all == crate::lists::views_of(graph.homeserver_ids@),
                crate::lists::views_of(filtered@) == exclude_id(
                    all.take(i as int),
                    self.default_homeserver@,
                ),
            decreases graph.homeserver_ids@.len() - i,
        {
            let ghost pre = crate::lists::views_of(filtered@);
            let keep = !crate::text::str_eq(
                graph.homeserver_ids[i].as_str(),
                self.default_homeserver.as_str(),
            );
            if keep {
                filtered.push(graph.homeserver_ids[i].clone());
            }
            proof {
                let e = all[i as int];
                assert(all.take(i + 1 as int) =~= all.take(i as int).push(e));
                lemma_exclude_id_snoc(all.take(i as int), self.default_homeserver@, e);
                if keep {
                    assert(crate::lists::views_of(filtered@) =~= pre.push(e));
                }
            }
            i = i + 1;
        }
        proof {
            assert(all.take(all.len() as int) =~= all);
        }
        let max_index = if self.monitored_homeservers_limit < filtered.len() {
            self.monitored_homeservers_limit
        } else {
            filtered.len()
        };
        let mut out: Vec<String> = Vec::new();
        let mut j: usize = 0;
        proof {
            assert(crate::lists::views_of(out@) =~= crate::lists::views_of(filtered@).take(0));
        }
        while j < max_index
            invariant
                j <= max_index <= filtered@.len(),
                crate::lists::views_of(out@) == crate::lists::views_of(filtered@).take(j as int),
            decreases max_index - j,
        {
            let ghost pre = crate::lists::views_of(out@);
            out.push(filtered[j].clone());
            proof {
                assert(crate::lists::views_of(out@) =~= pre.push(
                    crate::lists::views_of(filtered@)[j as int],
                ));
                assert(crate::lists::views_of(filtered@).take(j + 1 as int)
                    =~= crate::lists::views_of(filtered@).take(j as int).push(
                    crate::lists::views_of(filtered@)[j as int],
                ));
            }
            j = j + 1;
        }
        proof {
            if self.monitored_homeservers_limit as nat >= crate::lists::views_of(
                filtered@,
            ).len() {
                assert(crate::lists::views_of(filtered@).take(filtered@.len() as int)
                    =~= crate::lists::views_of(filtered@));
            }
        }
        out
    }

    /// Walk the pool: before each homeserver the shutdown flag is observed —
    /// `shutdown_at` is the check at which it first reads raised — and the
    /// loop stops there.  Each attempted homeserver contributes exactly one
    /// outcome with its elapsed wall time, classified from what its
    /// supervised build-and-run reported, independently of every other
    /// homeserver.
    pub fn run_all(
        &self,
        graph: &GraphStore,
        attempts: &Vec<(RunAttempt, u64)>,
        shutdown_at: Option<usize>,
    ) -> (r: ProcessedStats)
        requires
            attempts@.len() >= pool_of(
                *graph,
                self.default_homeserver@,
                self.monitored_homeservers_limit as nat,
            ).len(),
        ensures
            ({
                let pool = pool_of(
                    *graph,
                    self.default_homeserver@,
                    self.monitored_homeservers_limit as nat,
                );
                let n = crate::processor::processed_upto(pool.len(), shutdown_at);
                &&& r.0.view().len() == n
                &&& forall|i: int|
                    0 <= i < n ==> (#[trigger] r.0.view()[i]) == (RunStatView {
                        hs_id: pool[i],
                        duration_ms: attempts@[i].1,
                        status: status_of(attempts@[i].0),
                    })
            }),
    {
        let pool = self.pre_run_all(graph);
        let ghost pool_v = pool_of(
            *graph,
            self.default_homeserver@,
            self.monitored_homeservers_limit as nat,
        );
        let mut run_stats = RunAllProcessorsStats::new();
        let end: usize = match shutdown_at {
            Some(a) => {
                if a < pool.len() {
                    a
                } else {
                    pool.len()
                }
            },
            None => pool.len(),
        };
        let mut i: usize = 0;
        while i < end
            invariant
                i <= end <= pool@.len(),
                pool@.len() == pool_v.len(),
                crate::lists::views_of(pool@) == pool_v,
                attempts@.len() >= pool_v.len(),
                end as nat == crate::processor::processed_upto(pool_v.len(), shutdown_at),
                run_stats.view().len() == i,
                forall|j: int|
                    0 <= j < i ==> (#[trigger] run_stats.view()[j]) == (RunStatView {
                        hs_id: pool_v[j],
                        duration_ms: attempts@[j].1,
                        status: status_of(attempts@[j].0),
                    }),
            decreases end - i,
        {
            let status = classify_attempt(attempts[i].0);
            run_stats.add_run_result(pool[i].clone(), attempts[i].1, status);
            i = i + 1;
        }
        ProcessedStats(run_stats)
    }

    /// Run only the default homeserver: unless the shutdown flag already
    /// reads raised, exactly one outcome is recorded for it, however large
    /// the pool is and however its members fail.
    pub fn run_default(&self, attempt: (RunAttempt, u64), shutdown: bool) -> (r: ProcessedStats)
        ensures
            shutdown ==> r.0.view().len() == 0,
            !shutdown ==> r.0.view() == seq![
                (RunStatView {
                    hs_id: self.default_homeserver@,
                    duration_ms: attempt.1,
                    status: status_of(attempt.0),
                }),
            ],
    {
        let mut run_stats = RunAllProcessorsStats::new();
        if shutdown {
            return ProcessedStats(run_stats);
        }
        let status = classify_attempt(attempt.0);
        run_stats.add_run_result(self.default_homeserver.clone(), attempt.1, status);
        proof {
            assert(run_stats.view() =~= seq![
                RunStatView {
                    hs_id: self.default_homeserver@,
                    duration_ms: attempt.1,
                    status: status_of(attempt.0),
                },
            ]);
        }
        ProcessedStats(run_stats)
    }

    /// Summarize a pass: the counts are read off for reporting and the
    /// statistics object is returned with its content unchanged.
    pub fn post_run_all(&self, stats: RunAllProcessorsStats) -> (r: ProcessedStats)
        ensures
            r.0.view() == stats.view(),
    {
        let count_ok = stats.count_ok();
        let count_error = stats.count_error();
        let count_panic = stats.count_panic();
        let count_timeout = stats.count_timeout();
        let count_failed_to_build = stats.count_failed_to_build();
        proof {
            lemma_outcome_partition(stats.view());
        }
        let _had_issues = count_error > 0 || count_panic > 0 || count_timeout > 0
            || count_failed_to_build > 0;
        ProcessedStats(stats)
    }
}

/// Pool partition: the pool `pre_run_all` returns has exactly
/// `min(limit, m)` members, where `m` counts the non-default homeservers,
/// it never contains the default homeserver, and it keeps the priority
/// order, being a prefix of the order-preserving filter of the population.
pub proof fn lemma_pool_partition(graph: GraphStore, d: Seq<char>, limit: nat)
    ensures
        ({
            let filtered = exclude_id(crate::lists::views_of(graph.homeserver_ids@), d);
            let pool = pool_of(graph, d, limit);
            &&& pool.len() == if limit < filtered.len() {
                limit
            } else {
                filtered.len()
            }
            &&& !pool.contains(d)
            &&& forall|i: int| 0 <= i < pool.len() ==> #[trigger] pool[i] == filtered[i]
            &&& forall|x: Seq<char>|
                #[trigger] pool.contains(x) ==> crate::lists::views_of(
                    graph.homeserver_ids@,
                ).contains(x)
        }),
{
    let all = crate::lists::views_of(graph.homeserver_ids@);
    let filtered = exclude_id(all, d);
    let pool = pool_of(graph, d, limit);
    lemma_exclude_id_members(all, d);
    if pool.contains(d) {
        let i = choose|i: int| 0 <= i < pool.len() && pool[i] == d;
        assert(filtered[i] == d);
        assert(filtered.contains(d));
    }
    assert forall|x: Seq<char>| #[trigger] pool.contains(x) implies all.contains(x) by {
        let i = choose|i: int| 0 <= i < pool.len() && pool[i] == x;
        assert(filtered[i] == x);
        assert(filtered.contains(x));
    }
}

/// Fault isolation: over any recorded pass, the five outcome counts add up
/// to the number of homeservers attempted, and each homeserver's outcome is
/// exactly the classification of its own attempt — nothing else's.
pub proof fn lemma_fault_isolation(
    stats: Seq<RunStatView>,
    pool: Seq<Seq<char>>,
    attempts: Seq<(RunAttempt, u64)>,
)
    requires
        stats.len() <= pool.len(),
        stats.len() <= attempts.len(),
        forall|i: int|
            0 <= i < stats.len() ==> (#[trigger] stats[i]) == (RunStatView {
                hs_id: pool[i],
                duration_ms: attempts[i].1,
                status: status_of(attempts[i].0),
            }),
    ensures
        count_status(stats, ProcessorRunStatus::Success) + count_status(stats, ProcessorRunStatus::Error)
            + count_status(stats, ProcessorRunStatus::Panic) + count_status(
            stats,
            ProcessorRunStatus::Timeout,
        ) + count_status(stats, ProcessorRunStatus::FailedToBuild) == stats.len(),
        forall|i: int| 0 <= i < stats.len() ==> (#[trigger] stats[i]).status == status_of(attempts[i].0),
{
    lemma_outcome_partition(stats);
}

} // verus!
