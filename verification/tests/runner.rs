use nexus::runner::{
    EventProcessorRunner, ProcessorRunStatus, RunAttempt, RunAllProcessorsStats,
};
use nexus::store::GraphStore;

fn graph_with(ids: &[&str]) -> GraphStore {
    let mut graph = GraphStore::new();
    graph.homeserver_ids = ids.iter().map(|s| s.to_string()).collect();
    graph
}

#[test]
fn test_pre_run_all_excludes_default_and_applies_limit() {
    let graph = graph_with(&["hs-default", "hs1", "hs2", "hs3", "hs4"]);
    let runner = EventProcessorRunner::new("hs-default".to_string(), 2);
    let pool = runner.pre_run_all(&graph);
    assert_eq!(pool.len(), 2);
    assert!(
        !pool.contains(&"hs-default".to_string()),
        "pre_run_all should not include the default homeserver"
    );
    assert_eq!(pool, vec!["hs1".to_string(), "hs2".to_string()]);
}

#[test]
fn test_pre_run_all_limit_larger_than_pool() {
    let graph = graph_with(&["hs1", "hs-default", "hs2"]);
    let runner = EventProcessorRunner::new("hs-default".to_string(), 10);
    let pool = runner.pre_run_all(&graph);
    assert_eq!(pool, vec!["hs1".to_string(), "hs2".to_string()]);
}

#[test]
fn test_run_all_classifies_each_attempt_independently() {
    let graph = graph_with(&["hs1", "hs2", "hs3", "hs4", "hs5"]);
    let runner = EventProcessorRunner::new("hs-default".to_string(), 5);
    let attempts = vec![
        (RunAttempt::Completed, 5u64),
        (RunAttempt::Panicked, 7u64),
        (RunAttempt::TimedOut, 100u64),
        (RunAttempt::Internal, 3u64),
        (RunAttempt::BuildFailed, 0u64),
    ];
    let stats = runner.run_all(&graph, &attempts, None);
    let s = &stats.0;
    assert_eq!(s.stats.len(), 5);
    assert_eq!(s.count_ok(), 1);
    assert_eq!(s.count_panic(), 1);
    assert_eq!(s.count_timeout(), 1);
    assert_eq!(s.count_error(), 1);
    assert_eq!(s.count_failed_to_build(), 1);
    assert_eq!(
        s.count_ok() + s.count_error() + s.count_panic() + s.count_timeout()
            + s.count_failed_to_build(),
        5
    );
    assert!(matches!(s.stats[0].status, ProcessorRunStatus::Success));
    assert!(matches!(s.stats[1].status, ProcessorRunStatus::Panic));
    assert!(matches!(s.stats[2].status, ProcessorRunStatus::Timeout));
    assert!(matches!(s.stats[3].status, ProcessorRunStatus::Error));
    assert!(matches!(s.stats[4].status, ProcessorRunStatus::FailedToBuild));
    assert_eq!(s.stats[2].duration_ms, 100);
}

#[test]
fn test_run_all_stops_at_shutdown_point() {
    let graph = graph_with(&["hs1", "hs2", "hs3"]);
    let runner = EventProcessorRunner::new("hs-default".to_string(), 3);
    let attempts = vec![
        (RunAttempt::Completed, 1u64),
        (RunAttempt::Completed, 1u64),
        (RunAttempt::Completed, 1u64),
    ];
    let stats = runner.run_all(&graph, &attempts, Some(1));
    assert_eq!(stats.0.stats.len(), 1);
    assert_eq!(stats.0.stats[0].hs_id, "hs1");
}

#[test]
fn test_run_default_records_exactly_one_outcome() {
    let runner = EventProcessorRunner::new("hs-default".to_string(), 3);
    let stats = runner.run_default((RunAttempt::Completed, 12), false);
    assert_eq!(stats.0.stats.len(), 1);
    assert_eq!(stats.0.stats[0].hs_id, "hs-default");
    assert!(matches!(stats.0.stats[0].status, ProcessorRunStatus::Success));
    let stats = runner.run_default((RunAttempt::Completed, 12), true);
    assert_eq!(stats.0.stats.len(), 0);
}

#[test]
fn test_post_run_all_returns_content_unchanged() {
    let runner = EventProcessorRunner::new("hs-default".to_string(), 3);
    let mut stats = RunAllProcessorsStats::new();
    stats.add_run_result("hs1".to_string(), 4, ProcessorRunStatus::Error);
    let processed = runner.post_run_all(stats);
    assert_eq!(processed.0.stats.len(), 1);
    assert_eq!(processed.0.stats[0].hs_id, "hs1");
    assert!(matches!(processed.0.stats[0].status, ProcessorRunStatus::Error));
}

#[test]
fn test_find_representative_users_quartiles() {
    let users: Vec<(String, i64)> = (0..8)
        .map(|i| (format!("user{}", i), (100 - i) as i64))
        .collect();
    let reps = nexus::n4j::N4jOps::find_representative_users(&users).unwrap();
    assert_eq!(reps.len(), 5);
    assert_eq!(reps[0], ("Most followers".to_string(), "user0".to_string(), 100));
    assert_eq!(reps[1], ("High followers".to_string(), "user2".to_string(), 98));
    assert_eq!(reps[2], ("Medium followers".to_string(), "user4".to_string(), 96));
    assert_eq!(reps[3], ("Low followers".to_string(), "user6".to_string(), 94));
    assert_eq!(reps[4], ("Lowest followers".to_string(), "user7".to_string(), 93));
    assert!(nexus::n4j::N4jOps::find_representative_users(&Vec::new()).is_none());
}

#[test]
fn test_config_defaults() {
    let db = <nexus::config::DatabaseConfig as Default>::default();
    assert_eq!(db.redis, "redis://localhost:6379");
    assert_eq!(db.neo4j.uri, "bolt://localhost:7687");
    assert_eq!(db.neo4j.user, "neo4j");
    assert_eq!(nexus::config::default_redis_uri(), "redis://localhost:6379");
    assert_eq!(nexus::config::default_neo4j_uri(), "bolt://localhost:7687");
    assert_eq!(nexus::config::default_neo4j_user(), "neo4j");
}
