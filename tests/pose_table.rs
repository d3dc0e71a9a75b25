use posesync::pose_table::PoseTable;

#[test]
fn first_record_creates_the_entry() {
    let mut t: PoseTable<[f64; 3]> = PoseTable::new();
    assert!(t.is_empty());
    t.record(7, [1.0, 2.0, 3.0]);
    assert_eq!(t.len(), 1);
    assert!(t.contains(7));
    assert_eq!(t.get(7), Some(&[1.0, 2.0, 3.0]));
    assert_eq!(t.get(8), None);
}

#[test]
fn later_record_replaces_the_entry() {
    let mut t: PoseTable<[f64; 3]> = PoseTable::new();
    t.record(7, [1.0, 2.0, 3.0]);
    t.record(7, [4.0, 5.0, 6.0]);
    assert_eq!(t.len(), 1);
    assert_eq!(t.get(7), Some(&[4.0, 5.0, 6.0]));
}

#[test]
fn removing_twice_is_a_no_op() {
    let mut t: PoseTable<u32> = PoseTable::new();
    t.record(1, 10);
    t.record(2, 20);
    assert!(t.remove(1));
    assert!(!t.remove(1));
    assert_eq!(t.len(), 1);
    assert_eq!(t.get(2), Some(&20));
    assert_eq!(t.entries().len(), 1);
}
