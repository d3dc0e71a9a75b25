use posesync::axes::{AxisMap, AxisSlot};
use posesync::role::FrameType;

fn remap(m: &AxisMap, v: &[i64]) -> Vec<i64> {
    (0..m.len())
        .map(|i| {
            let s = m.slot(i);
            if s.negate {
                -v[s.source]
            } else {
                v[s.source]
            }
        })
        .collect()
}

#[test]
fn racket_orientation_remap() {
    let m = AxisMap::orientation(FrameType::Racket);
    assert_eq!(remap(&m, &[1, 2, 3, 4]), vec![-1, -3, 2, -4]);
}

#[test]
fn viewer_orientation_remap() {
    let m = AxisMap::orientation(FrameType::Viewer);
    assert_eq!(remap(&m, &[1, 2, 3, 4]), vec![-2, 3, -1, 4]);
}

#[test]
fn acceleration_remaps() {
    let r = AxisMap::acceleration(FrameType::Racket);
    assert_eq!(remap(&r, &[1, 2, 3]), vec![1, 3, -2]);
    let v = AxisMap::acceleration(FrameType::Viewer);
    assert_eq!(remap(&v, &[1, 2, 3]), vec![1, 2, 3]);
}

#[test]
fn inverse_undoes_each_role_remap() {
    for frame in [FrameType::Racket, FrameType::Viewer] {
        let m = AxisMap::orientation(frame);
        let inv = m.inverse();
        let q = [5, -6, 7, -8];
        assert_eq!(remap(&inv, &remap(&m, &q)), q.to_vec());
        assert_eq!(remap(&m, &remap(&inv, &q)), q.to_vec());
        let a = AxisMap::acceleration(frame);
        let ainv = a.inverse();
        assert_eq!(remap(&ainv, &remap(&a, &[1, 2, 3])), vec![1, 2, 3]);
    }
}

#[test]
fn racket_orientation_inverse_slots() {
    let inv = AxisMap::orientation(FrameType::Racket).inverse();
    let slots: Vec<AxisSlot> = (0..inv.len()).map(|i| inv.slot(i)).collect();
    assert_eq!(
        slots,
        vec![
            AxisSlot { source: 0, negate: true },
            AxisSlot { source: 2, negate: false },
            AxisSlot { source: 1, negate: true },
            AxisSlot { source: 3, negate: true },
        ]
    );
}
