use posesync::broadcast::ObserverClientManager;
use posesync::pose_table::PoseTable;

#[test]
fn empty_table_is_not_sent() {
    let t: PoseTable<[f64; 3]> = PoseTable::new();
    assert!(ObserverClientManager::snapshot(&t).is_none());
}

#[test]
fn non_empty_table_is_sent_whole() {
    let mut t: PoseTable<[f64; 3]> = PoseTable::new();
    t.record(1, [0.0, 1.0, 2.0]);
    t.record(2, [3.0, 4.0, 5.0]);
    let entries = ObserverClientManager::snapshot(&t).unwrap();
    assert_eq!(entries.len(), 2);
    // a subscriber that joins now gets an object with exactly those two keys
    let subscribers = vec![(0usize, "new subscriber")];
    let kept = ObserverClientManager::prune(subscribers, &vec![true]);
    assert_eq!(kept, vec![(0, "new subscriber")]);
    let text = serde_json::to_string(entries).unwrap();
    let value: serde_json::Value = serde_json::from_str(&text).unwrap();
    let object = value.as_object().unwrap();
    let mut keys: Vec<&String> = object.keys().collect();
    keys.sort();
    assert_eq!(keys, vec!["1", "2"]);
    assert_eq!(object["2"], serde_json::Value::from(vec![3.0, 4.0, 5.0]));
}

#[test]
fn failed_write_removes_only_that_subscriber() {
    let subscribers = vec![(10usize, 'a'), (11, 'b'), (12, 'c')];
    let kept = ObserverClientManager::prune(subscribers, &vec![true, false, true]);
    assert_eq!(kept, vec![(10, 'a'), (12, 'c')]);
}

#[test]
fn all_failed_writes_empty_the_set() {
    let subscribers = vec![(1usize, ()), (2, ())];
    let kept = ObserverClientManager::prune(subscribers, &vec![false, false]);
    assert!(kept.is_empty());
    let none: Vec<(usize, ())> = Vec::new();
    assert!(ObserverClientManager::prune(none, &Vec::new()).is_empty());
}
