use std::collections::HashMap;
use vstd::prelude::*;

use crate::pose_table::PoseTable;

verus! {

/// The decisions of the broadcast loop, which on every tick sends the whole
/// pose table to every subscriber and prunes the ones it could not reach.
pub struct ObserverClientManager;

/// The name the broadcast loop had in the first layout of the server.
pub type ObserverClientHandler = ObserverClientManager;

/// The subscribers that stay after a tick: those whose write went through, in
/// their order.
pub open spec fn kept<C>(subscribers: Seq<C>, delivered: Seq<bool>) -> Seq<C>
    decreases subscribers.len(),
{
    if subscribers.len() == 0 || delivered.len() == 0 {
        Seq::empty()
    } else {
        (if delivered[0] {
            seq![subscribers[0]]
        } else {
            Seq::empty()
        }) + kept(subscribers.skip(1), delivered.skip(1))
    }
}

/// When every write went through, every subscriber stays.
pub proof fn lemma_all_delivered_keeps_all<C>(subscribers: Seq<C>, delivered: Seq<bool>)
    requires
        delivered.len() == subscribers.len(),
        forall|j: int| 0 <= j < delivered.len() ==> #[trigger] delivered[j],
    ensures
        kept(subscribers, delivered) == subscribers,
    decreases subscribers.len(),
{
    if subscribers.len() > 0 {
        let (s1, d1) = (subscribers.skip(1), delivered.skip(1));
        assert forall|j: int| 0 <= j < d1.len() implies #[trigger] d1[j] by {
            assert(d1[j] == delivered[j + 1]);
        }
        lemma_all_delivered_keeps_all(s1, d1);
        assert(seq![subscribers[0]] + s1 =~= subscribers);
    }
}

/// A failed write to one subscriber removes exactly that subscriber; the
/// others stay, in their order.
pub proof fn lemma_failure_removes_only_failed<C>(
    subscribers: Seq<C>,
    delivered: Seq<bool>,
    failed: int,
)
    requires
        delivered.len() == subscribers.len(),
        0 <= failed < subscribers.len(),
        !delivered[failed],
        forall|j: int| 0 <= j < delivered.len() && j != failed ==> #[trigger] delivered[j],
    ensures
        kept(subscribers, delivered) == subscribers.remove(failed),
    decreases subscribers.len(),
{
    let (s1, d1) = (subscribers.skip(1), delivered.skip(1));
    if failed == 0 {
        assert forall|j: int| 0 <= j < d1.len() implies #[trigger] d1[j] by {
            assert(d1[j] == delivered[j + 1]);
        }
        lemma_all_delivered_keeps_all(s1, d1);
        assert(Seq::<C>::empty() + s1 =~= s1);
        assert(subscribers.remove(0) =~= s1);
    } else {
        assert forall|j: int| 0 <= j < d1.len() && j != failed - 1 implies #[trigger] d1[j] by {
            assert(d1[j] == delivered[j + 1]);
        }
        assert(delivered[0]);
        lemma_failure_removes_only_failed(s1, d1, failed - 1);
        assert(seq![subscribers[0]] + s1.remove(failed - 1) =~= subscribers.remove(failed));
    }
}

impl ObserverClientManager {
    /// What this tick sends: nothing when the table is empty, else the whole
    /// table as it stands.
    pub fn snapshot<P>(table: &PoseTable<P>) -> (r: Option<&HashMap<usize, P>>)
        ensures
            r is None <==> table@.is_empty(),
            r matches Some(m) ==> m@ == table@,
    {
        if table.is_empty() {
            None
        } else {
            Some(table.entries())
        }
    }

    /// The subscribers after a tick, given for each of them whether the write
    /// of this tick reached it.
    pub fn prune<C>(subscribers: Vec<(usize, C)>, delivered: &Vec<bool>) -> (r: Vec<(usize, C)>)
        requires
            delivered@.len() == subscribers@.len(),
        ensures
            r@ == kept(subscribers@, delivered@),
    {
        let ghost s = subscribers@;
        let ghost d = delivered@;
        let mut v = subscribers;
        let mut i = v.len();
        assert(s.take(i as int) =~= s);
        assert(s.skip(i as int).len() == 0);
        while i > 0
            invariant
                i <= s.len(),
                d == delivered@,
                d.len() == s.len(),
                v@ == s.take(i as int) + kept(s.skip(i as int), d.skip(i as int)),
            decreases i,
        {
            let j = i - 1;
            let ghost rest = kept(s.skip(i as int), d.skip(i as int));
            assert(s.skip(j as int).skip(1) =~= s.skip(i as int));
            assert(d.skip(j as int).skip(1) =~= d.skip(i as int));
            assert(s.skip(j as int)[0] == s[j as int]);
            assert(d.skip(j as int)[0] == d[j as int]);
            if !delivered[j] {
                assert(v@[j as int] == s[j as int]);
                v.remove(j);
                assert(v@ =~= s.take(j as int) + rest);
            } else {
                assert(v@ =~= s.take(j as int) + seq![s[j as int]] + rest);
            }
            i = j;
        }
        assert(s.skip(0) =~= s);
        assert(d.skip(0) =~= d);
        assert(v@ =~= kept(s, d));
        v
    }
}

} // verus!
