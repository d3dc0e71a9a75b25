use posesync::axes::AxisMap;
use posesync::pose_table::PoseTable;
use posesync::role::FrameType;
use posesync::session::{Action, Inbound, Session};

fn remap(m: &AxisMap, v: &[f64]) -> Vec<f64> {
    (0..m.len())
        .map(|i| {
            let s = m.slot(i);
            if s.negate {
                -v[s.source]
            } else {
                v[s.source]
            }
        })
        .collect()
}

#[test]
fn measurement_creates_entry_and_close_removes_it() {
    let mut t: PoseTable<u32> = PoseTable::new();
    let mut s = Session::new(7, FrameType::Racket, None);
    assert_eq!(s.step(&mut t, Inbound::Control), Action::Continue);
    assert!(!t.contains(7));
    assert_eq!(s.step(&mut t, Inbound::Measurement(1)), Action::Continue);
    assert_eq!(t.get(7), Some(&1));
    assert_eq!(s.step(&mut t, Inbound::Measurement(2)), Action::Continue);
    assert_eq!(t.get(7), Some(&2));
    assert_eq!(s.step(&mut t, Inbound::Closed), Action::Stop);
    assert!(!s.is_active());
    assert!(t.is_empty());
}

#[test]
fn failed_read_removes_entry_once() {
    let mut t: PoseTable<u32> = PoseTable::new();
    t.record(3, 30);
    let mut s = Session::new(7, FrameType::Viewer, None);
    s.step(&mut t, Inbound::Measurement(1));
    assert_eq!(s.step(&mut t, Inbound::Failed), Action::Stop);
    assert!(!t.contains(7));
    // a later client with the same id must not be removed by the ended session
    t.record(7, 70);
    assert_eq!(s.step(&mut t, Inbound::Closed), Action::Stop);
    assert_eq!(s.step(&mut t, Inbound::Measurement(5)), Action::Stop);
    assert_eq!(t.get(7), Some(&70));
    assert_eq!(t.get(3), Some(&30));
}

#[test]
fn malformed_text_changes_nothing() {
    let mut t: PoseTable<u32> = PoseTable::new();
    let mut s = Session::new(4, FrameType::Racket, None);
    s.step(&mut t, Inbound::Measurement(9));
    // "{not json"
    assert_eq!(s.step(&mut t, Inbound::Malformed), Action::Continue);
    assert!(s.is_active());
    assert_eq!(t.len(), 1);
    assert_eq!(t.get(4), Some(&9));
}

#[test]
fn frames_must_match_the_camera_size() {
    let mut t: PoseTable<u32> = PoseTable::new();
    let mut s = Session::new(1, FrameType::Viewer, Some((150, 150)));
    assert!(s.accepts_frame(90000));
    assert_eq!(s.step(&mut t, Inbound::Frame(90000)), Action::Track);
    assert_eq!(s.step(&mut t, Inbound::Frame(89999)), Action::DropFrame);
    assert_eq!(s.step(&mut t, Inbound::Frame(90004)), Action::DropFrame);
    assert!(s.is_active());
    assert!(t.is_empty());
    let mut plain = Session::new(2, FrameType::Racket, None);
    assert_eq!(plain.step(&mut t, Inbound::Frame(0)), Action::DropFrame);
    let wide = Session::new(3, FrameType::Racket, Some((u32::MAX, u32::MAX)));
    assert!(!wide.accepts_frame(usize::MAX));
}

#[test]
fn primary_orientation_then_acceleration() {
    // client 7, racket role: orientation [0,0,0,1] then acceleration [1,0,0]
    let q = remap(&AxisMap::orientation(FrameType::Racket), &[0.0, 0.0, 0.0, 1.0]);
    assert_eq!(q, vec![0.0, 0.0, 0.0, -1.0]);
    let a = remap(&AxisMap::acceleration(FrameType::Racket), &[1.0, 0.0, 0.0]);
    assert_eq!(a, vec![1.0, 0.0, 0.0]);
    // the quaternion (w = -1, no vector part) rotates nothing, so the
    // trapezoidal step from rest moves along x alone
    let delta = 1.0 / 60.0;
    let v = (0.0 + a[0]) * 0.5 * delta;
    let p = (0.0 + v) * 0.5 * delta;
    let mut t: PoseTable<[f64; 3]> = PoseTable::new();
    let mut s = Session::new(7, FrameType::Racket, None);
    s.step(&mut t, Inbound::Measurement([0.0, 0.0, 0.0]));
    s.step(&mut t, Inbound::Measurement([p, a[1], a[2]]));
    let pose = t.get(7).unwrap();
    assert!(pose[0] > 0.0 && pose[1] == 0.0 && pose[2] == 0.0);
    assert!((pose[0] - 0.25 * delta * delta).abs() < 1e-15);
}
