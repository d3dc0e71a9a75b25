use std::collections::HashMap;
use vstd::prelude::*;

verus! {

broadcast use vstd::std_specs::hash::group_hash_axioms;

/// The latest pose of every connected writer, keyed by client id.
///
/// Writes are last-write-wins per key; a second writer with the same id takes
/// over the first one's entry. The table is generic over the pose record so
/// that the numeric side of a pose stays with the caller.
pub struct PoseTable<P> {
    entries: HashMap<usize, P>,
}

impl<P> View for PoseTable<P> {
    type V = Map<usize, P>;

    closed spec fn view(&self) -> Map<usize, P> {
        self.entries@
    }
}

impl<P> PoseTable<P> {
    /// An empty table.
    pub fn new() -> (r: Self)
        ensures
            r@ == Map::<usize, P>::empty(),
    {
        PoseTable { entries: HashMap::new() }
    }

    /// Stores `pose` as the current pose of `client`, creating the entry on the
    /// first write and replacing it afterwards.
    pub fn record(&mut self, client: usize, pose: P)
        ensures
            final(self)@ == old(self)@.insert(client, pose),
    {
        self.entries.insert(client, pose);
    }

    /// Drops the entry of `client`; tells whether there was one. Removing an
    /// absent client leaves the table as it is.
    pub fn remove(&mut self, client: usize) -> (r: bool)
        ensures
            final(self)@ == old(self)@.remove(client),
            r == old(self)@.contains_key(client),
    {
        self.entries.remove(&client).is_some()
    }

    /// The current pose of `client`, if it has one.
    pub fn get(&self, client: usize) -> (r: Option<&P>)
        ensures
            match r {
                Some(p) => self@.contains_key(client) && *p == self@[client],
                None => !self@.contains_key(client),
            },
    {
        self.entries.get(&client)
    }

    /// Whether `client` has an entry.
    pub fn contains(&self, client: usize) -> (r: bool)
        ensures
            r == self@.contains_key(client),
    {
        self.entries.contains_key(&client)
    }

    /// The number of clients with an entry.
    pub fn len(&self) -> (r: usize)
        ensures
            r == self@.len(),
    {
        self.entries.len()
    }

    /// Whether no client has an entry.
    pub fn is_empty(&self) -> (r: bool)
        ensures
            r == self@.is_empty(),
            r == (self@.len() == 0),
    {
        proof {
            if self@.len() == 0 {
                self@.dom().lemma_len0_is_empty();
            }
        }
        self.entries.is_empty()
    }

    /// The whole table, for reading or serialising a snapshot.
    pub fn entries(&self) -> (r: &HashMap<usize, P>)
        ensures
            r@ == self@,
    {
        &self.entries
    }
}

/// Removing a client's entry a second time changes nothing.
pub proof fn lemma_remove_idempotent<P>(t: PoseTable<P>, client: usize)
    ensures
        t@.remove(client).remove(client) == t@.remove(client),
        !t@.remove(client).contains_key(client),
{
    assert(t@.remove(client).remove(client) =~= t@.remove(client));
}

} // verus!
