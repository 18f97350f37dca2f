use nexus::events::{parse_event, EventError, EventType, Moderation, Resource};
use nexus::processor::{parse_poll_response, EventProcessor, Homeserver, PollOutcome};
use nexus::records::UserDetails;
use nexus::retry::{extract_retry_event_info, RetryEvent, RetryKey, RetryQueue};
use nexus::store::{CacheStore, GraphStore, TagRecord};

fn moderation_off() -> Moderation {
    Moderation::new("nobody".to_string(), Vec::new())
}

fn processor(hs: &str) -> EventProcessor {
    EventProcessor::new(Homeserver::new(hs.to_string()), 1000, moderation_off())
}

fn alice_graph() -> GraphStore {
    let mut graph = GraphStore::new();
    graph.users.insert("alice", UserDetails::new("alice".to_string(), "Alice".to_string()));
    graph
}

#[test]
fn test_parse_event_put_post() {
    let ev = parse_event("PUT pubky://alice/pub/pubky.app/posts/0ABC").unwrap();
    assert!(matches!(ev.event_type, EventType::Put));
    assert_eq!(ev.user_id, "alice");
    assert_eq!(ev.uri, "pubky://alice/pub/pubky.app/posts/0ABC");
    match ev.resource {
        Resource::Post(id) => assert_eq!(id, "0ABC"),
        _ => panic!("expected a post resource"),
    }
}

#[test]
fn test_parse_event_del_profile() {
    let ev = parse_event("DEL pubky://bob/pub/pubky.app/profile.json").unwrap();
    assert!(matches!(ev.event_type, EventType::Del));
    assert_eq!(ev.user_id, "bob");
    assert!(matches!(ev.resource, Resource::User));
}

#[test]
fn test_parse_event_rejects_malformed_lines() {
    assert!(parse_event("").is_err());
    assert!(parse_event("GET pubky://alice/pub/pubky.app/profile.json").is_err());
    assert!(parse_event("PUT http://alice/pub/pubky.app/profile.json").is_err());
    assert!(parse_event("PUT pubky:///pub/pubky.app/profile.json").is_err());
    assert!(parse_event("PUT pubky://alice/pub/other.app/profile.json").is_err());
    assert!(parse_event("PUT pubky://alice/pub/pubky.app/posts/").is_err());
    assert!(parse_event("PUT pubky://alice/pub/pubky.app/unknown/1").is_err());
}

#[test]
fn test_parse_poll_response_empty_means_no_new_events() {
    assert!(parse_poll_response("").is_none());
    assert!(parse_poll_response("  \n\t \r\n").is_none());
}

#[test]
fn test_parse_poll_response_splits_lines() {
    let lines = parse_poll_response("\nline one\nline two\ncursor: abc\n\n").unwrap();
    assert_eq!(lines, vec!["line one".to_string(), "line two".to_string(), "cursor: abc".to_string()]);
}

#[test]
fn test_build_requires_known_homeserver_and_resumes_cursor() {
    let mut cache = CacheStore::new();
    let mut graph = alice_graph();
    graph.homeserver_ids = vec!["hs1".to_string()];
    let moderation = moderation_off();
    assert!(EventProcessor::build(&cache, &graph, &moderation, 1000, "hs9").is_none());
    let p = EventProcessor::build(&cache, &graph, &moderation, 1000, "hs1").unwrap();
    assert_eq!(p.homeserver.cursor, "0");
    cache.cursors.insert("hs1", "00FF".to_string());
    let p = EventProcessor::build(&cache, &graph, &moderation, 1000, "hs1").unwrap();
    assert_eq!(p.homeserver.cursor, "00FF");
}

#[test]
fn test_cursor_line_updates_and_persists_cursor() {
    let mut p = processor("hs1");
    let mut cache = CacheStore::new();
    let mut retry = RetryQueue::new();
    let graph = alice_graph();
    let lines = vec!["cursor: 00AA".to_string()];
    p.process_event_lines(&mut cache, &graph, &mut retry, &lines, None).unwrap();
    assert_eq!(p.homeserver.cursor, "00AA");
    assert_eq!(cache.cursors.get("hs1").unwrap().as_str(), "00AA");
}

#[test]
fn test_user_counts_atomic_initialization() {
    let mut cache = CacheStore::new();
    assert!(cache.user_counts.get("alice").is_none(), "User counts should not exist yet");
    let first = cache.user_counts.create_if_absent("alice", nexus::records::UserCounts::zeroed());
    assert!(first, "First create_if_absent should create the counts");
    assert!(cache.user_counts.get("alice").is_some(), "Counts should exist after first create_if_absent");
    let second = cache.user_counts.create_if_absent("alice", nexus::records::UserCounts::zeroed());
    assert!(!second, "Second create_if_absent should return false (already exists)");
    assert!(cache.user_counts.get("alice").is_some(), "Counts should still exist");
}

#[test]
fn test_user_counts_concurrent_initialization() {
    // The store serializes racing creators; a race of three callers is
    // three create_if_absent calls in some order, and exactly one wins.
    let mut cache = CacheStore::new();
    assert!(cache.user_counts.get("alice").is_none(), "User counts should not exist yet");
    let mut created = 0;
    for _ in 0..3 {
        if cache.user_counts.create_if_absent("alice", nexus::records::UserCounts::zeroed()) {
            created += 1;
        }
    }
    assert_eq!(created, 1, "Exactly one concurrent create_if_absent should create the record");
    let counts = cache.user_counts.get("alice").expect("Counts should exist after concurrent initialization");
    assert_eq!(counts.followers, 0);
}

#[test]
fn test_post_counts_atomic_initialization() {
    let mut cache = CacheStore::new();
    let key = nexus::store::make_key2("alice", "0ABC");
    assert!(cache.post_counts.get(&key).is_none(), "Post counts should not exist yet");
    let first = cache.post_counts.create_if_absent(&key, nexus::records::PostCounts::zeroed());
    assert!(first, "First create_if_absent should create the counts");
    let second = cache.post_counts.create_if_absent(&key, nexus::records::PostCounts::zeroed());
    assert!(!second, "Second create_if_absent should return false (already exists)");
    assert!(cache.post_counts.get(&key).is_some(), "Counts should still exist");
}

#[test]
fn test_user_creation_with_atomic_counts() {
    let mut p = processor("hs1");
    let mut cache = CacheStore::new();
    let mut retry = RetryQueue::new();
    let graph = alice_graph();
    let lines = vec!["PUT pubky://alice/pub/pubky.app/profile.json".to_string()];
    p.process_event_lines(&mut cache, &graph, &mut retry, &lines, None).unwrap();
    let counts = cache.user_counts.get("alice").expect("User counts should be created during user creation");
    assert_eq!(counts.followers, 0);
    assert_eq!(counts.tags, 0);
    let details = cache.user_details.get("alice").unwrap();
    assert_eq!(details.name, "Alice");
}

#[test]
fn test_follow_events_move_sets_and_counters_once() {
    let mut p = processor("hs1");
    let mut cache = CacheStore::new();
    let mut retry = RetryQueue::new();
    let graph = alice_graph();
    let lines = vec![
        "PUT pubky://alice/pub/pubky.app/follows/bob".to_string(),
        "PUT pubky://alice/pub/pubky.app/follows/bob".to_string(),
    ];
    p.process_event_lines(&mut cache, &graph, &mut retry, &lines, None).unwrap();
    assert!(cache.following.check("alice", "bob"));
    assert!(cache.followers.check("bob", "alice"));
    assert_eq!(cache.user_counts.get("alice").unwrap().following, 1);
    assert_eq!(cache.user_counts.get("bob").unwrap().followers, 1);
}

#[test]
fn test_missing_graph_record_goes_to_retry_queue() {
    let mut p = processor("hs1");
    let mut cache = CacheStore::new();
    let mut retry = RetryQueue::new();
    let graph = GraphStore::new();
    let lines = vec!["PUT pubky://carol/pub/pubky.app/profile.json".to_string()];
    p.process_event_lines(&mut cache, &graph, &mut retry, &lines, None).unwrap();
    assert!(cache.user_counts.get("carol").is_none());
    let ev = parse_event("PUT pubky://carol/pub/pubky.app/profile.json").unwrap();
    let (key, _) = extract_retry_event_info(&ev, EventError::MissingDependency).unwrap();
    let queued = retry.get(key).expect("the failed event should be queued");
    assert_eq!(queued.uri, "pubky://carol/pub/pubky.app/profile.json");
}

#[test]
fn test_retry_classification_and_idempotent_enqueue() {
    let ev = parse_event("PUT pubky://alice/pub/pubky.app/tags/T1").unwrap();
    assert!(extract_retry_event_info(&ev, EventError::InvalidEventLine).is_none());
    let (key, rev) = extract_retry_event_info(&ev, EventError::MissingDependency).unwrap();
    assert!(key.put);
    let mut q = RetryQueue::new();
    q.enqueue(key, rev);
    let again = RetryEvent::new(EventError::MissingDependency, ev.uri.clone());
    q.enqueue(key, again);
    assert!(q.get(key).is_some());
    let other = RetryKey { put: false, digest: key.digest };
    assert!(q.get(other).is_none());
}

#[test]
fn test_compressed_index_is_deterministic() {
    let a = nexus::retry::compress_uri("pubky://alice/pub/pubky.app/posts/0ABC");
    let b = nexus::retry::compress_uri("pubky://alice/pub/pubky.app/posts/0ABC");
    let c = nexus::retry::compress_uri("pubky://alice/pub/pubky.app/posts/0ABD");
    assert_eq!(a, b);
    assert_ne!(a, c);
}

#[test]
fn test_shutdown_stops_processing_between_lines() {
    let mut p = processor("hs1");
    let mut cache = CacheStore::new();
    let mut retry = RetryQueue::new();
    let graph = alice_graph();
    let lines = vec![
        "PUT pubky://alice/pub/pubky.app/follows/bob".to_string(),
        "PUT pubky://alice/pub/pubky.app/follows/carol".to_string(),
    ];
    p.process_event_lines(&mut cache, &graph, &mut retry, &lines, Some(1)).unwrap();
    assert!(cache.following.check("alice", "bob"));
    assert!(!cache.following.check("alice", "carol"));
}

#[test]
fn test_run_reports_no_new_events_on_blank_body() {
    let mut p = processor("hs1");
    let mut cache = CacheStore::new();
    let mut retry = RetryQueue::new();
    let graph = alice_graph();
    let outcome = p.run(&mut cache, &graph, &mut retry, "  \n ", None);
    assert!(matches!(outcome, PollOutcome::NoNewEvents));
    let outcome = p.run(
        &mut cache,
        &graph,
        &mut retry,
        "PUT pubky://alice/pub/pubky.app/profile.json\ncursor: 0X1\n",
        None,
    );
    assert!(matches!(outcome, PollOutcome::Processed));
    assert_eq!(p.homeserver.cursor, "0X1");
    assert!(cache.user_counts.get("alice").is_some());
}

#[test]
fn test_cursor_durability_under_replay() {
    // A crash before the cursor is persisted replays the same lines; the
    // derived counts and indexes must equal a single clean run's.
    let mut graph = alice_graph();
    graph.tags.insert(
        "T1",
        TagRecord {
            tagger: "bob".to_string(),
            label: "cool".to_string(),
            target: "alice".to_string(),
            post: None,
        },
    );
    let lines = vec![
        "PUT pubky://alice/pub/pubky.app/profile.json".to_string(),
        "PUT pubky://bob/pub/pubky.app/follows/alice".to_string(),
        "PUT pubky://bob/pub/pubky.app/tags/T1".to_string(),
    ];

    let mut p1 = processor("hs1");
    let mut clean = CacheStore::new();
    let mut retry1 = RetryQueue::new();
    p1.process_event_lines(&mut clean, &graph, &mut retry1, &lines, None).unwrap();

    let mut p2 = processor("hs1");
    let mut replayed = CacheStore::new();
    let mut retry2 = RetryQueue::new();
    p2.process_event_lines(&mut replayed, &graph, &mut retry2, &lines, None).unwrap();
    p2.process_event_lines(&mut replayed, &graph, &mut retry2, &lines, None).unwrap();

    for cache in [&clean, &replayed] {
        let counts = cache.user_counts.get("alice").unwrap();
        assert_eq!(counts.followers, 1);
        assert_eq!(counts.tags, 1);
        assert!(cache.following.check("bob", "alice"));
        let tk = nexus::store::make_key2("alice", "cool");
        assert_eq!(cache.taggers.members_page(&tk, 10), vec!["bob".to_string()]);
        assert_eq!(cache.user_tags.get_score("alice", "cool"), Some(1));
        assert_eq!(cache.tag_search.get_score("Tags:Global", "cool"), Some(1));
    }
    let c1 = clean.user_counts.get("alice").unwrap();
    let c2 = replayed.user_counts.get("alice").unwrap();
    assert_eq!(c1.followers, c2.followers);
    assert_eq!(c1.following, c2.following);
    assert_eq!(c1.tags, c2.tags);
}

#[test]
fn test_tag_search_cleanup_after_user_del() {
    let mut graph = alice_graph();
    graph.tags.insert(
        "T1",
        TagRecord {
            tagger: "bob".to_string(),
            label: "uniqueusertag".to_string(),
            target: "alice".to_string(),
            post: None,
        },
    );
    let mut p = processor("hs1");
    let mut cache = CacheStore::new();
    let mut retry = RetryQueue::new();
    let put = vec!["PUT pubky://bob/pub/pubky.app/tags/T1".to_string()];
    p.process_event_lines(&mut cache, &graph, &mut retry, &put, None).unwrap();
    let q = nexus::api::SearchTagsQuery { skip: None, limit: None };
    let found = nexus::api::search_tags_by_prefix(&cache, "unique", &q).unwrap();
    assert_eq!(
        found,
        vec!["uniqueusertag".to_string()],
        "Tag should appear in search suggestions after being added to user"
    );
    let del = vec!["DEL pubky://bob/pub/pubky.app/tags/T1".to_string()];
    p.process_event_lines(&mut cache, &graph, &mut retry, &del, None).unwrap();
    let found = nexus::api::search_tags_by_prefix(&cache, "unique", &q).unwrap();
    assert!(
        found.is_empty(),
        "Tag should be removed from search suggestions after last user tag is deleted"
    );
}

#[test]
fn test_tag_search_preserved_while_other_tagger_remains() {
    let mut graph = alice_graph();
    for (tid, tagger) in [("T1", "bob"), ("T2", "carol")] {
        graph.tags.insert(
            tid,
            TagRecord {
                tagger: tagger.to_string(),
                label: "sharedtag".to_string(),
                target: "alice".to_string(),
                post: None,
            },
        );
    }
    let mut p = processor("hs1");
    let mut cache = CacheStore::new();
    let mut retry = RetryQueue::new();
    let lines = vec![
        "PUT pubky://bob/pub/pubky.app/tags/T1".to_string(),
        "PUT pubky://carol/pub/pubky.app/tags/T2".to_string(),
        "DEL pubky://bob/pub/pubky.app/tags/T1".to_string(),
    ];
    p.process_event_lines(&mut cache, &graph, &mut retry, &lines, None).unwrap();
    let q = nexus::api::SearchTagsQuery { skip: None, limit: None };
    let found = nexus::api::search_tags_by_prefix(&cache, "shared", &q).unwrap();
    assert_eq!(
        found,
        vec!["sharedtag".to_string()],
        "Tag should still appear in search suggestions because another tagger remains"
    );
    let rest = vec!["DEL pubky://carol/pub/pubky.app/tags/T2".to_string()];
    p.process_event_lines(&mut cache, &graph, &mut retry, &rest, None).unwrap();
    let found = nexus::api::search_tags_by_prefix(&cache, "shared", &q).unwrap();
    assert!(
        found.is_empty(),
        "Tag should be removed from search suggestions after all occurrences are deleted"
    );
}

#[test]
fn test_moderation_skips_tag_indexing() {
    let mut graph = GraphStore::new();
    graph.tags.insert(
        "T9",
        TagRecord {
            tagger: "mallory".to_string(),
            label: "spam".to_string(),
            target: "alice".to_string(),
            post: None,
        },
    );
    let moderation = Moderation::new("mallory".to_string(), vec!["spam".to_string()]);
    let mut p = EventProcessor::new(Homeserver::new("hs1".to_string()), 1000, moderation);
    let mut cache = CacheStore::new();
    let mut retry = RetryQueue::new();
    let lines = vec!["PUT pubky://mallory/pub/pubky.app/tags/T9".to_string()];
    p.process_event_lines(&mut cache, &graph, &mut retry, &lines, None).unwrap();
    let tk = nexus::store::make_key2("alice", "spam");
    assert!(cache.taggers.members_page(&tk, 10).is_empty());
    assert_eq!(cache.tag_search.get_score("Tags:Global", "spam"), None);
}

#[test]
fn test_post_view_serves_tags_when_counter_positive() {
    let mut graph = alice_graph();
    let pk = nexus::store::make_key2("alice", "0ABC");
    graph.posts.insert(
        &pk,
        nexus::records::PostDetails {
            id: "0ABC".to_string(),
            author: "alice".to_string(),
            content: "hello".to_string(),
            indexed_at: 7,
        },
    );
    graph.tags.insert(
        "T5",
        TagRecord {
            tagger: "bob".to_string(),
            label: "insightful".to_string(),
            target: "alice".to_string(),
            post: Some("0ABC".to_string()),
        },
    );
    let mut p = processor("hs1");
    let mut cache = CacheStore::new();
    let mut retry = RetryQueue::new();
    let lines = vec!["PUT pubky://bob/pub/pubky.app/tags/T5".to_string()];
    p.process_event_lines(&mut cache, &graph, &mut retry, &lines, None).unwrap();

    let view = nexus::views::PostView::get_by_id(&cache, &graph, "alice", "0ABC", None, None, None)
        .unwrap();
    assert_eq!(view.counts.tags, 1);
    assert_eq!(view.tags.len(), 1, "a post with a positive tag counter serves its tags");
    assert_eq!(view.tags[0].label, "insightful");
    assert_eq!(view.tags[0].taggers, vec!["bob".to_string()]);

    let del = vec!["DEL pubky://bob/pub/pubky.app/tags/T5".to_string()];
    p.process_event_lines(&mut cache, &graph, &mut retry, &del, None).unwrap();
    let view = nexus::views::PostView::get_by_id(&cache, &graph, "alice", "0ABC", None, None, None)
        .unwrap();
    assert_eq!(view.counts.tags, 0);
    assert!(view.tags.is_empty());
}

#[test]
fn test_tag_search_cleanup_after_post_del() {
    let mut graph = alice_graph();
    let pk = nexus::store::make_key2("alice", "0ABC");
    graph.posts.insert(
        &pk,
        nexus::records::PostDetails {
            id: "0ABC".to_string(),
            author: "alice".to_string(),
            content: "hello".to_string(),
            indexed_at: 7,
        },
    );
    graph.tags.insert(
        "T6",
        TagRecord {
            tagger: "bob".to_string(),
            label: "uniquetag".to_string(),
            target: "alice".to_string(),
            post: Some("0ABC".to_string()),
        },
    );
    let mut p = processor("hs1");
    let mut cache = CacheStore::new();
    let mut retry = RetryQueue::new();
    let put = vec!["PUT pubky://bob/pub/pubky.app/tags/T6".to_string()];
    p.process_event_lines(&mut cache, &graph, &mut retry, &put, None).unwrap();
    let q = nexus::api::SearchTagsQuery { skip: None, limit: None };
    let found = nexus::api::search_tags_by_prefix(&cache, "unique", &q).unwrap();
    assert_eq!(
        found,
        vec!["uniquetag".to_string()],
        "Tag should appear in search suggestions after being added"
    );
    let del = vec!["DEL pubky://bob/pub/pubky.app/tags/T6".to_string()];
    p.process_event_lines(&mut cache, &graph, &mut retry, &del, None).unwrap();
    let found = nexus::api::search_tags_by_prefix(&cache, "unique", &q).unwrap();
    assert!(
        found.is_empty(),
        "Tag should be removed from search suggestions after last occurrence is deleted"
    );
}

#[test]
fn test_tag_search_suggestions_are_lexicographic() {
    let mut graph = alice_graph();
    for (tid, tagger, label) in [
        ("T7", "bob", "abco"),
        ("T8", "carol", "abab"),
        ("T9", "dave", "abba"),
    ] {
        graph.tags.insert(
            tid,
            TagRecord {
                tagger: tagger.to_string(),
                label: label.to_string(),
                target: "alice".to_string(),
                post: None,
            },
        );
    }
    let mut p = processor("hs1");
    let mut cache = CacheStore::new();
    let mut retry = RetryQueue::new();
    let lines = vec![
        "PUT pubky://bob/pub/pubky.app/tags/T7".to_string(),
        "PUT pubky://carol/pub/pubky.app/tags/T8".to_string(),
        "PUT pubky://dave/pub/pubky.app/tags/T9".to_string(),
    ];
    p.process_event_lines(&mut cache, &graph, &mut retry, &lines, None).unwrap();
    let q = nexus::api::SearchTagsQuery { skip: None, limit: None };
    let found = nexus::api::search_tags_by_prefix(&cache, "ab", &q).unwrap();
    assert_eq!(
        found,
        vec!["abab".to_string(), "abba".to_string(), "abco".to_string()],
        "suggestions come as a lexicographic scan"
    );
}
