use nexus::api::{self, ApiError, SearchQuery};
use nexus::records::UserDetails;
use nexus::relationship::{Friends, Relationship};
use nexus::search::SearchIndex;
use nexus::store::{CacheStore, GraphStore};
use nexus::views::{PostView, UserView};

fn details(id: &str, name: &str) -> UserDetails {
    UserDetails::new(id.to_string(), name.to_string())
}

fn index_with(users: &[(&str, &str)]) -> SearchIndex {
    let mut index = SearchIndex::new();
    let batch: Vec<UserDetails> = users.iter().map(|(id, name)| details(id, name)).collect();
    index.put_to_index(&batch);
    index
}

#[test]
fn test_no_duplicate_after_username_change() {
    let mut index = index_with(&[("userx", "OriginalUsername")]);
    let found = index.get_by_name("originalusername", None, None).unwrap();
    assert_eq!(found.0, vec!["userx".to_string()], "User should be in name sorted set");
    let by_id = index.get_by_id("userx", None, None).unwrap();
    assert_eq!(by_id.0, vec!["userx".to_string()], "User should be in ID sorted set");

    index.put_to_index(&vec![details("userx", "NewUsername")]);
    let found = index.get_by_name("newusername", None, None).unwrap();
    assert_eq!(found.0, vec!["userx".to_string()], "User with new username should be in sorted set");
    assert!(
        index.get_by_name("originalusername", None, None).is_none(),
        "User with old username should NOT be in sorted set"
    );
    let by_id = index.get_by_id("userx", None, None).unwrap();
    assert_eq!(by_id.0, vec!["userx".to_string()], "User should still be in ID sorted set");
}

#[test]
fn test_multiple_username_changes_no_duplicates() {
    let mut index = index_with(&[("usery", "FirstName")]);
    for name in ["SecondName", "ThirdName", "FourthName"] {
        index.put_to_index(&vec![details("usery", name)]);
    }
    let found = index.get_by_name("fourthname", None, None).unwrap();
    assert_eq!(found.0, vec!["usery".to_string()], "User with final username should be in sorted set");
    for old in ["firstname", "secondname", "thirdname"] {
        assert!(
            index.get_by_name(old, None, None).is_none(),
            "Old username should NOT be in sorted set"
        );
    }
    let by_id = index.get_by_id("usery", None, None).unwrap();
    assert_eq!(by_id.0.len(), 1, "User ID should be in sorted set exactly once");
}

#[test]
fn test_no_orphaned_entries_after_delete() {
    let mut index = index_with(&[("userz", "UserToDelete")]);
    assert!(index.get_by_name("usertodelete", None, None).is_some(), "User should be in name sorted set");
    assert!(index.get_by_id("userz", None, None).is_some(), "User should be in ID sorted set");
    index.delete_from_index("userz");
    assert!(
        index.get_by_name("usertodelete", None, None).is_none(),
        "User should NOT be in name sorted set after deletion"
    );
    assert!(
        index.get_by_id("userz", None, None).is_none(),
        "User should NOT be in ID sorted set after deletion"
    );
}

#[test]
fn test_deleted_marker_is_never_indexed() {
    let mut index = index_with(&[("userw", "SomeName")]);
    index.put_to_index(&vec![details("userw", "[DELETED]")]);
    assert!(index.get_by_name("somename", None, None).is_none());
    assert!(index.get_by_id("userw", None, None).is_none());
}

#[test]
fn test_search_pagination_keeps_index_order() {
    let index = index_with(&[("u1", "ann"), ("u2", "anna"), ("u3", "annette"), ("u4", "bob")]);
    let all = index.get_by_name("ann", None, None).unwrap();
    assert_eq!(all.0, vec!["u1".to_string(), "u2".to_string(), "u3".to_string()]);
    let page = index.get_by_name("ann", Some(1), Some(1)).unwrap();
    assert_eq!(page.0, vec!["u2".to_string()]);
    assert!(index.get_by_name("ann", Some(3), None).is_none());
}

#[test]
fn test_case_folded_search_query() {
    let index = index_with(&[("u9", "MixedCase")]);
    let found = index.get_by_name("MIXEDCASE", None, None).unwrap();
    assert_eq!(found.0, vec!["u9".to_string()]);
}

#[test]
fn test_search_users_handlers_validate_input() {
    let index = index_with(&[("united", "Neat")]);
    let q = SearchQuery { skip: None, limit: None };
    assert!(matches!(
        api::search_users_by_name(&index, "   ", &q),
        Err(ApiError::InvalidInput)
    ));
    let found = api::search_users_by_name(&index, "neat", &q).unwrap();
    assert_eq!(found.0, vec!["united".to_string()]);
    assert!(matches!(
        api::search_users_by_id(&index, "un", &q),
        Err(ApiError::InvalidInput)
    ));
    let found = api::search_users_by_id(&index, "uni", &q).unwrap();
    assert_eq!(found.0, vec!["united".to_string()]);
}

#[test]
fn test_sanitize_validate_tag_prefix() {
    let ok = api::sanitize_validate(" MyCoolTag ").unwrap();
    assert_eq!(ok, "mycooltag");
    assert!(matches!(
        api::sanitize_validate("this-label-is-way-too-long-to-pass"),
        Err(ApiError::InvalidInput)
    ));
    assert!(matches!(api::sanitize_validate("   "), Err(ApiError::InvalidInput)));
}

#[test]
fn test_relationship_batch_alignment() {
    let mut cache = CacheStore::new();
    for id in ["alice", "bob", "viewer"] {
        cache.user_counts.create_if_absent(id, nexus::records::UserCounts::zeroed());
    }
    cache.following.add("viewer", "alice");
    cache.following.add("bob", "viewer");
    cache.muted.add("viewer", "bob");

    let ids = vec!["alice".to_string(), "ghost".to_string(), "bob".to_string()];
    let rels = Relationship::get_by_ids(&cache, &ids, Some("viewer"));
    assert_eq!(rels.len(), 3);
    let alice = rels[0].unwrap();
    assert!(alice.following && !alice.followed_by && !alice.muted);
    assert!(rels[1].is_none(), "an unknown user has no relationship");
    let bob = rels[2].unwrap();
    assert!(!bob.following && bob.followed_by && bob.muted);

    let none_viewer = Relationship::get_by_ids(&cache, &ids, None);
    assert!(none_viewer.iter().all(|r| r.is_none()));
}

#[test]
fn test_friends_requires_mutual_follow() {
    let mut cache = CacheStore::new();
    cache.following.add("a", "b");
    assert!(!Friends::check(&cache, "a", "b"));
    cache.following.add("b", "a");
    assert!(Friends::check(&cache, "a", "b"));
}

#[test]
fn test_user_view_cache_aside() {
    let mut cache = CacheStore::new();
    let mut graph = GraphStore::new();
    graph.users.insert("alice", details("alice", "Alice"));
    let view = UserView::get_by_id(&mut cache, &graph, "alice", None).unwrap();
    assert_eq!(view.details.name, "Alice");
    assert_eq!(view.counts.followers, 0);
    assert!(UserView::get_by_id(&mut cache, &graph, "nobody", None).is_none());

    cache.user_details.insert("alice", details("alice", "Alice Cached"));
    let view = UserView::get_by_id(&mut cache, &graph, "alice", None).unwrap();
    assert_eq!(view.details.name, "Alice Cached", "the cache answers before the graph");

    let views = UserView::get_by_ids(
        &mut cache,
        &graph,
        &vec!["alice".to_string(), "nobody".to_string()],
        None,
    );
    assert!(views[0].is_some());
    assert!(views[1].is_none());
}

#[test]
fn test_post_view_composition() {
    let mut cache = CacheStore::new();
    let mut graph = GraphStore::new();
    let pk = nexus::store::make_key2("alice", "0ABC");
    graph.posts.insert(
        &pk,
        nexus::records::PostDetails {
            id: "0ABC".to_string(),
            author: "alice".to_string(),
            content: "hello".to_string(),
            indexed_at: 7,
        },
    );
    let view = PostView::get_by_id(&cache, &graph, "alice", "0ABC", None, None, None).unwrap();
    assert_eq!(view.details.content, "hello");
    assert_eq!(view.counts.tags, 0);
    assert!(view.bookmark.is_none());
    assert!(PostView::get_by_id(&cache, &graph, "alice", "0MISSING", None, None, None).is_none());

    let bk = nexus::store::make_key2(&pk, "viewer");
    cache.bookmarks.insert(&bk, nexus::records::Bookmark { id: "B1".to_string(), indexed_at: 3 });
    let view = PostView::get_by_id(&cache, &graph, "alice", "0ABC", Some("viewer"), None, None).unwrap();
    let bookmark = view.bookmark.unwrap();
    assert_eq!(bookmark.id, "B1");
}

#[test]
fn test_user_muted_handler() {
    let mut cache = CacheStore::new();
    cache.user_counts.create_if_absent("alice", nexus::records::UserCounts::zeroed());
    cache.muted.add("alice", "bob");
    cache.muted.add("alice", "carol");
    let q = nexus::api::UserMutedQuery { skip: Some(1), limit: Some(5) };
    let muted = api::user_muted(&cache, "alice", &q).unwrap();
    assert_eq!(muted, vec!["carol".to_string()]);
    assert!(matches!(
        api::user_muted(&cache, "ghost", &q),
        Err(ApiError::UserNotFound)
    ));
}

#[test]
fn test_user_tags_fallback_to_graph() {
    let mut cache = CacheStore::new();
    let mut graph = GraphStore::new();
    graph.user_tags.insert(
        "alice",
        vec![nexus::records::TagDetails {
            label: "cool".to_string(),
            taggers: vec!["bob".to_string()],
        }],
    );
    let q = nexus::api::UserTagsQuery {
        skip_tags: None,
        limit_tags: None,
        limit_taggers: None,
        viewer_id: None,
        depth: None,
    };
    let tags = api::user_tags(&mut cache, &graph, "alice", &q).unwrap();
    assert_eq!(tags.len(), 1);
    assert_eq!(tags[0].label, "cool");
    assert_eq!(tags[0].taggers, vec!["bob".to_string()]);
    assert!(matches!(
        api::user_tags(&mut cache, &graph, "ghost", &q),
        Err(ApiError::UserNotFound)
    ));

    // Cache-aside write-back: the miss installed the graph's answer, so the
    // ranking now exists in the cache and scores the label by tagger count.
    assert_eq!(cache.user_tags.get_score("alice", "cool"), Some(1));
    let tk = nexus::store::make_key2("alice", "cool");
    assert_eq!(cache.taggers.members_page(&tk, 10), vec!["bob".to_string()]);
    let again = api::user_tags(&mut cache, &graph, "alice", &q).unwrap();
    assert_eq!(again.len(), 1);
    assert_eq!(again[0].label, "cool");
}

#[test]
fn test_search_query_case_normalized() {
    let index = index_with(&[("u9", "MixedCase")]);
    let q = SearchQuery { skip: None, limit: None };
    let raw = api::search_users_by_name(&index, "MiXeD", &q).unwrap();
    let folded = api::search_users_by_name(&index, "mixed", &q).unwrap();
    assert_eq!(raw.0, folded.0, "a query and its folded form match the same entries");
    assert_eq!(raw.0, vec!["u9".to_string()]);
}
