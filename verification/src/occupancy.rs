//! The two indexes of a tick: the voxels that are claimed, and the tags and
//! ids of the cells by voxel.
use vstd::prelude::*;
use std::collections::HashMap;
use std::collections::HashSet;
use crate::geometry::{I3, key_of, lemma_key_injective};

verus! {

broadcast use vstd::std_specs::hash::group_hash_axioms;

/// `HashSet::clone`: a set that holds the same keys.
#[verifier::external_body]
fn clone_keys(keys: &HashSet<u64>) -> (copy: HashSet<u64>)
    ensures
        copy@ == keys@,
{
    keys.clone()
}

/// The set of voxels that are claimed: by Bedrock or by a cell.
pub struct Occupancy {
    keys: HashSet<u64>,
}

impl View for Occupancy {
    type V = Set<I3>;

    /// The claimed voxels.
    closed spec fn view(&self) -> Set<I3> {
        Set::new(|v: I3| self.keys@.contains(key_of(v)))
    }
}

impl Occupancy {
    /// An index in which no voxel is claimed.
    pub fn new() -> (occ: Occupancy)
        ensures
            occ@ == Set::<I3>::empty(),
    {
        let occ = Occupancy { keys: HashSet::new() };
        assert(occ@ =~= Set::<I3>::empty());
        occ
    }

    /// An index that claims the same voxels as this one.
    pub fn duplicate(&self) -> (occ: Occupancy)
        ensures
            occ@ == self@,
    {
        let occ = Occupancy { keys: clone_keys(&self.keys) };
        assert(occ@ =~= self@);
        occ
    }

    /// Whether `v` is claimed.
    pub fn contains(&self, v: I3) -> (r: bool)
        ensures
            r == self@.contains(v),
    {
        let k = v.key();
        self.keys.contains(&k)
    }

    /// Claims `v`. Returns whether `v` was free before.
    pub fn insert(&mut self, v: I3) -> (fresh: bool)
        ensures
            final(self)@ == old(self)@.insert(v),
            fresh == !old(self)@.contains(v),
    {
        let k = v.key();
        let fresh = self.keys.insert(k);
        proof {
            assert forall|w: I3| #[trigger] final(self)@.contains(w) == old(self)@.insert(v).contains(w) by {
                lemma_key_injective(v, w);
            }
            assert(final(self)@ =~= old(self)@.insert(v));
        }
        fresh
    }

    /// Releases `v`. Returns whether `v` was claimed before.
    pub fn remove(&mut self, v: I3) -> (held: bool)
        ensures
            final(self)@ == old(self)@.remove(v),
            held == old(self)@.contains(v),
    {
        let k = v.key();
        let held = self.keys.remove(&k);
        proof {
            assert forall|w: I3| #[trigger] final(self)@.contains(w) == old(self)@.remove(v).contains(w) by {
                lemma_key_injective(v, w);
            }
            assert(final(self)@ =~= old(self)@.remove(v));
        }
        held
    }
}

/// What neighbours can learn of a cell from the voxel it stands in: its tag
/// and its id.
pub struct TagIndex {
    entries: HashMap<u64, (u8, u64)>,
}

impl View for TagIndex {
    type V = Map<I3, (u8, u64)>;

    /// The tag and id filed under each voxel.
    closed spec fn view(&self) -> Map<I3, (u8, u64)> {
        Map::new(|v: I3| self.entries@.contains_key(key_of(v)), |v: I3| self.entries@[key_of(v)])
    }
}

impl TagIndex {
    /// An index without entries.
    pub fn new() -> (tags: TagIndex)
        ensures
            tags@ == Map::<I3, (u8, u64)>::empty(),
    {
        let tags = TagIndex { entries: HashMap::new() };
        assert(tags@ =~= Map::<I3, (u8, u64)>::empty());
        tags
    }

    /// The tag and id filed under `v`, if any.
    pub fn get(&self, v: I3) -> (r: Option<(u8, u64)>)
        ensures
            r == if self@.contains_key(v) {
                Some(self@[v])
            } else {
                None
            },
    {
        let k = v.key();
        match self.entries.get(&k) {
            Some(e) => Some(*e),
            None => None,
        }
    }

    /// Whether an entry is filed under `v`.
    pub fn contains(&self, v: I3) -> (r: bool)
        ensures
            r == self@.contains_key(v),
    {
        let k = v.key();
        self.entries.contains_key(&k)
    }

    /// Files `tag` and `id` under `v`, in place of what was filed there.
    pub fn insert(&mut self, v: I3, tag: u8, id: u64)
        ensures
            final(self)@ == old(self)@.insert(v, (tag, id)),
    {
        let k = v.key();
        self.entries.insert(k, (tag, id));
        proof {
            assert forall|w: I3|
                #[trigger] final(self)@.contains_key(w) == old(self)@.insert(
                    v,
                    (tag, id),
                ).contains_key(w) by {
                lemma_key_injective(v, w);
            }
            assert forall|w: I3| final(self)@.contains_key(w) implies #[trigger] final(self)@[w]
                == old(self)@.insert(v, (tag, id))[w] by {
                lemma_key_injective(v, w);
            }
            assert(final(self)@ =~= old(self)@.insert(v, (tag, id)));
        }
    }

    /// Drops the entry filed under `v`, if any.
    pub fn remove(&mut self, v: I3)
        ensures
            final(self)@ == old(self)@.remove(v),
    {
        let k = v.key();
        self.entries.remove(&k);
        proof {
            assert forall|w: I3|
                #[trigger] final(self)@.contains_key(w) == old(self)@.remove(v).contains_key(
                    w,
                ) by {
                lemma_key_injective(v, w);
            }
            assert forall|w: I3| final(self)@.contains_key(w) implies #[trigger] final(self)@[w]
                == old(self)@.remove(v)[w] by {
                lemma_key_injective(v, w);
            }
            assert(final(self)@ =~= old(self)@.remove(v));
        }
    }
}

} // verus!
