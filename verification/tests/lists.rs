use nexus::lists::ListStore;

fn strings(values: &[&str]) -> Vec<String> {
    values.iter().map(|s| s.to_string()).collect()
}

#[test]
fn test_put_prevents_duplicates() {
    let mut store = ListStore::new();
    let key = format!("{}:{}", "test_lists", "duplicate_test");
    let test_values = strings(&["value1", "value2", "value3"]);

    let added = store.put(&key, &test_values);
    assert_eq!(added, 3);

    let result = store.get_range(&key, None, None);
    assert!(result.is_some());
    let values = result.unwrap();
    assert_eq!(values.len(), 3);
    assert_eq!(values, strings(&["value1", "value2", "value3"]));

    let added = store.put(&key, &test_values);
    assert_eq!(added, 0);

    let result = store.get_range(&key, None, None);
    assert!(result.is_some());
    let values = result.unwrap();
    assert_eq!(values.len(), 3, "Duplicates were not prevented!");
    assert_eq!(values, strings(&["value1", "value2", "value3"]));

    let mixed_values = strings(&["value2", "value4", "value1", "value5"]);
    store.put(&key, &mixed_values);

    let result = store.get_range(&key, None, None);
    assert!(result.is_some());
    let values = result.unwrap();
    assert_eq!(values.len(), 5, "Mixed insertion failed!");
    assert_eq!(
        values,
        strings(&["value1", "value2", "value3", "value4", "value5"])
    );
}

#[test]
fn test_put_empty_values() {
    let mut store = ListStore::new();
    let key = format!("{}:{}", "test_lists", "empty_test");
    let empty_values: Vec<String> = Vec::new();

    let added = store.put(&key, &empty_values);
    assert_eq!(added, 0);

    let result = store.get_range(&key, None, None);
    assert!(result.is_none());
}

#[test]
fn test_get_range_with_skip_and_limit() {
    let mut store = ListStore::new();
    let key = format!("{}:{}", "test_lists", "range_test");
    let test_values = strings(&["a", "b", "c", "d", "e", "f"]);

    store.put(&key, &test_values);

    let result = store.get_range(&key, Some(2), None);
    assert!(result.is_some());
    let values = result.unwrap();
    assert_eq!(values, strings(&["c", "d", "e", "f"]));

    let result = store.get_range(&key, None, Some(3));
    assert!(result.is_some());
    let values = result.unwrap();
    assert_eq!(values, strings(&["a", "b", "c"]));

    let result = store.get_range(&key, Some(1), Some(3));
    assert!(result.is_some());
    let values = result.unwrap();
    assert_eq!(values, strings(&["b", "c", "d"]));
}

#[test]
fn test_dedup_append_spec_example() {
    let mut store = ListStore::new();
    let added = store.put("k", &strings(&["a", "b", "a", "c"]));
    assert_eq!(added, 3);
    let added = store.put("k", &strings(&["a", "d"]));
    assert_eq!(added, 1);
    assert_eq!(store.get_range("k", None, None).unwrap(), strings(&["a", "b", "c", "d"]));
}

#[test]
fn test_replayed_append_changes_nothing() {
    let mut store = ListStore::new();
    store.put("k", &strings(&["a", "b", "c"]));
    let before = store.get_range("k", None, None).unwrap();
    store.put("k", &strings(&["a", "b", "c"]));
    let after = store.get_range("k", None, None).unwrap();
    assert_eq!(before, after);
}
