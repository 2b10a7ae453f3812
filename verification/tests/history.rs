use rhc::history::HistoryItem;
use rhc::history::HistoryStore;

fn item(name: &str, value: &str, env: &str) -> HistoryItem {
    HistoryItem::new(name, value, env)
}

#[test]
fn record_skips_structurally_equal_entries() {
    // The store never holds two structurally-equal entries.
    let mut store = HistoryStore::new(Vec::new(), 10);
    assert!(store.record(item("n", "v", "e")));
    assert!(!store.record(item("n", "v", "e")));
    assert_eq!(store.entries.len(), 1);
    // A difference in any one field makes the entry novel.
    assert!(store.record(item("n", "v", "other")));
    assert!(store.record(item("n", "w", "e")));
    assert!(store.record(item("m", "v", "e")));
    assert_eq!(store.entries.len(), 4);
}

#[test]
fn eviction_keeps_most_recent_suffix() {
    // After eviction the count equals min(total, max) and the retained
    // entries are exactly the most recently added ones.
    let mut store = HistoryStore::new(Vec::new(), 3);
    for k in 0..5 {
        let v = format!("value{}", k);
        assert!(store.record(item("n", &v, "e")));
    }
    assert_eq!(store.entries.len(), 5);
    assert!(store.evict());
    assert_eq!(store.entries.len(), 3);
    assert_eq!(store.entries[0].value, "value2");
    assert_eq!(store.entries[1].value, "value3");
    assert_eq!(store.entries[2].value, "value4");
}

#[test]
fn eviction_below_max_changes_nothing() {
    let mut store = HistoryStore::new(Vec::new(), 3);
    assert!(store.record(item("n", "v", "e")));
    assert!(!store.evict());
    assert_eq!(store.entries.len(), 1);
}

#[test]
fn values_for_filters_by_name_and_environment() {
    let entries = vec![
        item("a", "v1", "dev"),
        item("a", "v2", "prod"),
        item("b", "v3", "dev"),
        item("a", "v4", "dev"),
    ];
    let store = HistoryStore::new(entries, 10);
    let values = store.values_for("a", "dev");
    assert_eq!(values, vec!["v1", "v4"]);
    let none = store.values_for("c", "dev");
    assert!(none.is_empty());
}

#[test]
fn zero_maximum_evicts_everything() {
    let mut store = HistoryStore::new(vec![item("n", "v", "e")], 0);
    assert!(store.evict());
    assert!(store.entries.is_empty());
}
