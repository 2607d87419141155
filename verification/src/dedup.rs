//! The run-scoped set of physical extent ids already credited to the
//! disk/uncompressed totals.  The storage is a sharded concurrent hash set
//! keyed by integer ids; verified code reasons about it through the
//! abstract set of ids it holds.

use vstd::prelude::*;

verus! {

/// The ids that the set holds.  This is the abstract contents of a
/// `DedupSet`; the trusted wrappers below state how each operation moves
/// it.
pub uninterp spec fn dedup_ids(s: DedupSet) -> Set<u64>;

/// Set of physical extent ids seen so far in this run.  Insertion is the
/// only mutating operation and reports whether the id was newly inserted.
#[verifier::external_body]
pub struct DedupSet {
    set: dashmap::DashSet<u64, nohash::BuildNoHashHasher<u64>>,
}

impl DedupSet {
    /// Relies on dashmap::DashSet::with_hasher: a freshly built set holds
    /// nothing.
    #[verifier::external_body]
    fn empty_raw() -> (r: Self)
        ensures
            dedup_ids(r) == Set::<u64>::empty(),
    {
        DedupSet { set: dashmap::DashSet::with_hasher(nohash::BuildNoHashHasher::default()) }
    }

    /// Relies on dashmap::DashSet::insert: returns true iff the key was
    /// not already in the set, and the key is in the set afterwards.
    #[verifier::external_body]
    fn insert_raw(&mut self, id: u64) -> (r: bool)
        ensures
            dedup_ids(*final(self)) == dedup_ids(*old(self)).insert(id),
            r == !dedup_ids(*old(self)).contains(id),
    {
        self.set.insert(id)
    }

    /// A set holding no id yet.
    pub fn new() -> (r: Self)
        ensures
            dedup_ids(r) == Set::<u64>::empty(),
    {
        DedupSet::empty_raw()
    }

    /// Record one physical id; true iff this id had never been inserted
    /// before in this run.
    pub fn insert(&mut self, id: u64) -> (r: bool)
        ensures
            dedup_ids(*final(self)) == dedup_ids(*old(self)).insert(id),
            r == !dedup_ids(*old(self)).contains(id),
    {
        self.insert_raw(id)
    }
}

} // verus!
