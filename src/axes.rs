use vstd::prelude::*;

use crate::role::FrameType;

verus! {

/// One component of a remapped vector: the input component it is taken from,
/// and whether its sign is flipped.
#[derive(Clone, Copy, Debug, PartialEq, Eq, Structural)]
pub struct AxisSlot {
    pub source: usize,
    pub negate: bool,
}

/// A signed permutation of vector components: output component `i` is input
/// component `slots[i].source`, negated when `slots[i].negate`.
///
/// The frame transforms of both roles are of this kind (on top of a fixed
/// rotation for the viewer), so the tables below are the whole of their
/// axis convention.
pub struct AxisMap {
    slots: Vec<AxisSlot>,
}

impl View for AxisMap {
    type V = Seq<AxisSlot>;

    closed spec fn view(&self) -> Seq<AxisSlot> {
        self.slots@
    }
}

pub open spec fn signed(negate: bool, x: int) -> int {
    if negate {
        -x
    } else {
        x
    }
}

/// The map applied to a vector of the same length.
pub open spec fn apply(m: Seq<AxisSlot>, v: Seq<int>) -> Seq<int> {
    Seq::new(m.len(), |i: int| signed(m[i].negate, v[m[i].source as int]))
}

/// Some output component of `m` is taken from input component `j`.
pub open spec fn feeds(m: Seq<AxisSlot>, j: int) -> bool {
    exists|i: int| 0 <= i < m.len() && (#[trigger] m[i]).source == j
}

/// Every input component feeds exactly one output component.
pub open spec fn is_bijective(m: Seq<AxisSlot>) -> bool {
    &&& forall|i: int| 0 <= i < m.len() ==> (#[trigger] m[i]).source < m.len()
    &&& forall|i: int, k: int|
        0 <= i < m.len() && 0 <= k < m.len() && i != k ==> (#[trigger] m[i]).source != (
        #[trigger] m[k]).source
    &&& forall|j: int| 0 <= j < m.len() ==> #[trigger] feeds(m, j)
}

/// `inv` undoes `m`: output component `j` of `inv` reads back the component of
/// `m` that was taken from input `j`, with the same sign flip.
pub open spec fn is_inverse(m: Seq<AxisSlot>, inv: Seq<AxisSlot>) -> bool {
    &&& inv.len() == m.len()
    &&& forall|j: int|
        0 <= j < inv.len() ==> {
            &&& (#[trigger] inv[j]).source < m.len()
            &&& m[inv[j].source as int].source == j
            &&& inv[j].negate == m[inv[j].source as int].negate
        }
}

pub open spec fn slot(source: usize, negate: bool) -> AxisSlot {
    AxisSlot { source, negate }
}

/// The remap of an orientation quaternion `[x, y, z, w]`: for the racket
/// `[-x, -z, y, -w]`; for the viewer, after its fixed camera rotation,
/// `[-y, z, -x, w]`.
pub open spec fn orientation_map(frame: FrameType) -> Seq<AxisSlot> {
    match frame {
        FrameType::Racket => seq![slot(0, true), slot(2, true), slot(1, false), slot(3, true)],
        FrameType::Viewer => seq![slot(1, true), slot(2, false), slot(0, true), slot(3, false)],
    }
}

/// The remap of an acceleration `[x, y, z]` before it is rotated by the
/// orientation: for the racket `[x, z, -y]`; for the viewer none.
pub open spec fn acceleration_map(frame: FrameType) -> Seq<AxisSlot> {
    match frame {
        FrameType::Racket => seq![slot(0, false), slot(2, false), slot(1, true)],
        FrameType::Viewer => seq![slot(0, false), slot(1, false), slot(2, false)],
    }
}

/// Applying a signed permutation and then its inverse gives back the vector,
/// and so does applying the inverse first.
pub proof fn lemma_round_trip(m: Seq<AxisSlot>, inv: Seq<AxisSlot>, v: Seq<int>)
    requires
        is_bijective(m),
        is_inverse(m, inv),
        v.len() == m.len(),
    ensures
        apply(inv, apply(m, v)) == v,
        apply(m, apply(inv, v)) == v,
{
    let mv = apply(m, v);
    assert forall|j: int| 0 <= j < v.len() implies apply(inv, mv)[j] == v[j] by {
        let i = inv[j].source as int;
        assert(mv[i] == signed(m[i].negate, v[j]));
    }
    assert(apply(inv, mv) =~= v);
    let iv = apply(inv, v);
    assert forall|i: int| 0 <= i < v.len() implies apply(m, iv)[i] == v[i] by {
        let j = m[i].source as int;
        let k = inv[j].source as int;
        assert(m[k].source == j);
        assert(k == i);
    }
    assert(apply(m, iv) =~= v);
}

/// The remaps of both roles are signed permutations.
pub proof fn lemma_role_maps_bijective(frame: FrameType)
    ensures
        is_bijective(orientation_map(frame)),
        is_bijective(acceleration_map(frame)),
{
    let o = orientation_map(frame);
    let a = acceleration_map(frame);
    assert forall|j: int| 0 <= j < o.len() implies #[trigger] feeds(o, j) by {
        if frame is Racket {
            if j == 0 {
                assert(o[0].source == j);
            } else if j == 1 {
                assert(o[2].source == j);
            } else if j == 2 {
                assert(o[1].source == j);
            } else {
                assert(o[3].source == j);
            }
        } else {
            if j == 0 {
                assert(o[2].source == j);
            } else if j == 1 {
                assert(o[0].source == j);
            } else if j == 2 {
                assert(o[1].source == j);
            } else {
                assert(o[3].source == j);
            }
        }
    }
    assert forall|j: int| 0 <= j < a.len() implies #[trigger] feeds(a, j) by {
        if frame is Racket {
            if j == 0 {
                assert(a[0].source == j);
            } else if j == 1 {
                assert(a[2].source == j);
            } else {
                assert(a[1].source == j);
            }
        } else {
            assert(a[j].source == j);
        }
    }
}

/// For each role, the inverse of its orientation remap recovers the
/// quaternion that went in, and likewise for its acceleration remap.
pub proof fn lemma_role_round_trip(
    frame: FrameType,
    orientation_inv: Seq<AxisSlot>,
    acceleration_inv: Seq<AxisSlot>,
    q: Seq<int>,
    a: Seq<int>,
)
    requires
        is_inverse(orientation_map(frame), orientation_inv),
        is_inverse(acceleration_map(frame), acceleration_inv),
        q.len() == 4,
        a.len() == 3,
    ensures
        apply(orientation_inv, apply(orientation_map(frame), q)) == q,
        apply(acceleration_inv, apply(acceleration_map(frame), a)) == a,
{
    lemma_role_maps_bijective(frame);
    lemma_round_trip(orientation_map(frame), orientation_inv, q);
    lemma_round_trip(acceleration_map(frame), acceleration_inv, a);
}

/// The racket's acceleration remap is the vector part of its orientation
/// remap with every sign flipped: it undoes the conjugation in that remap.
pub proof fn lemma_racket_acceleration_is_conjugate()
    ensures
        forall|i: int|
            0 <= i < 3 ==> #[trigger] acceleration_map(FrameType::Racket)[i] == slot(
                orientation_map(FrameType::Racket)[i].source,
                !orientation_map(FrameType::Racket)[i].negate,
            ),
{
}

impl AxisMap {
    /// The orientation remap of `frame`.
    pub fn orientation(frame: FrameType) -> (r: AxisMap)
        ensures
            r@ == orientation_map(frame),
    {
        let slots = match frame {
            FrameType::Racket => vec![
                AxisSlot { source: 0, negate: true },
                AxisSlot { source: 2, negate: true },
                AxisSlot { source: 1, negate: false },
                AxisSlot { source: 3, negate: true },
            ],
            FrameType::Viewer => vec![
                AxisSlot { source: 1, negate: true },
                AxisSlot { source: 2, negate: false },
                AxisSlot { source: 0, negate: true },
                AxisSlot { source: 3, negate: false },
            ],
        };
        let r = AxisMap { slots };
        assert(r@ =~= orientation_map(frame));
        r
    }

    /// The acceleration remap of `frame`.
    pub fn acceleration(frame: FrameType) -> (r: AxisMap)
        ensures
            r@ == acceleration_map(frame),
    {
        let slots = match frame {
            FrameType::Racket => vec![
                AxisSlot { source: 0, negate: false },
                AxisSlot { source: 2, negate: false },
                AxisSlot { source: 1, negate: true },
            ],
            FrameType::Viewer => vec![
                AxisSlot { source: 0, negate: false },
                AxisSlot { source: 1, negate: false },
                AxisSlot { source: 2, negate: false },
            ],
        };
        let r = AxisMap { slots };
        assert(r@ =~= acceleration_map(frame));
        r
    }

    /// The number of components the map reads and writes.
    pub fn len(&self) -> (r: usize)
        ensures
            r == self@.len(),
    {
        self.slots.len()
    }

    /// Where output component `i` comes from.
    pub fn slot(&self, i: usize) -> (r: AxisSlot)
        requires
            i < self@.len(),
        ensures
            r == self@[i as int],
    {
        self.slots[i]
    }

    /// The map that undoes this one.
    pub fn inverse(&self) -> (r: AxisMap)
        requires
            is_bijective(self@),
        ensures
            is_inverse(self@, r@),
            is_bijective(r@),
    {
        let ghost m = self@;
        let n = self.slots.len();
        let mut out: Vec<AxisSlot> = Vec::new();
        let mut j: usize = 0;
        while j < n
            invariant
                m == self@,
                n == m.len(),
                is_bijective(m),
                j <= n,
                out@.len() == j,
                forall|jj: int|
                    0 <= jj < j ==> {
                        &&& (#[trigger] out@[jj]).source < n
                        &&& m[out@[jj].source as int].source == jj
                        &&& out@[jj].negate == m[out@[jj].source as int].negate
                    },
            decreases n - j,
        {
            let mut i: usize = 0;
            while i < n && self.slots[i].source != j
                invariant
                    m == self@,
                    n == m.len(),
                    i <= n,
                    forall|ii: int| 0 <= ii < i ==> (#[trigger] m[ii]).source != j,
                decreases n - i,
            {
                i = i + 1;
            }
            if i == n {
                assert(feeds(m, j as int));
                let ghost k = choose|k: int| 0 <= k < m.len() && (#[trigger] m[k]).source == j;
                assert(m[k].source != j);
            }
            out.push(AxisSlot { source: i, negate: self.slots[i].negate });
            j = j + 1;
        }
        let r = AxisMap { slots: out };
        proof {
            let inv = r@;
            assert forall|a: int, b: int|
                0 <= a < inv.len() && 0 <= b < inv.len() && a != b implies (#[trigger] inv[a]).source
                != (#[trigger] inv[b]).source by {
                assert(m[inv[a].source as int].source == a);
                assert(m[inv[b].source as int].source == b);
            }
            assert forall|i: int| 0 <= i < inv.len() implies #[trigger] feeds(inv, i) by {
                let jj = m[i].source as int;
                let k = inv[jj].source as int;
                assert(m[k].source == jj);
                assert(inv[jj].source == i);
            }
        }
        r
    }
}

} // verus!
