//! Voxel coordinates, their keys for hashed indexes, and the order in which
//! a neighbourhood is scanned.
use vstd::prelude::*;

verus! {

/// A voxel coordinate: one signed 16-bit index per axis, in the order x, y, z.
#[derive(Debug, Hash, Eq, PartialEq, Copy, Clone, Structural)]
pub struct I3(pub i16, pub i16, pub i16);

/// The integer under which a voxel is filed in hashed indexes: the three
/// coordinates, each shifted to be non-negative, written as 16-bit digits.
pub open spec fn key_of(v: I3) -> u64 {
    ((v.0 + 32768) * 0x1_0000_0000 + (v.1 + 32768) * 0x1_0000 + (v.2 + 32768)) as u64
}

/// Distinct voxels are filed under distinct keys.
pub proof fn lemma_key_injective(a: I3, b: I3)
    ensures
        key_of(a) == key_of(b) <==> a == b,
{
}

/// Scan order of voxels: ascending x, then ascending y, then ascending z.
pub open spec fn scan_before(a: I3, b: I3) -> bool {
    a.0 < b.0 || (a.0 == b.0 && (a.1 < b.1 || (a.1 == b.1 && a.2 < b.2)))
}

/// `v` lies in the 3 by 3 by 3 box around `c` and is not `c` itself.
pub open spec fn adjacent(c: I3, v: I3) -> bool {
    &&& v != c
    &&& c.0 - 1 <= v.0 <= c.0 + 1
    &&& c.1 - 1 <= v.1 <= c.1 + 1
    &&& c.2 - 1 <= v.2 <= c.2 + 1
}

impl I3 {
    /// The key of this voxel.
    pub fn key(&self) -> (k: u64)
        ensures
            k == key_of(*self),
    {
        let x: u64 = (self.0 as i64 + 32768) as u64;
        let y: u64 = (self.1 as i64 + 32768) as u64;
        let z: u64 = (self.2 as i64 + 32768) as u64;
        x * 0x1_0000_0000 + y * 0x1_0000 + z
    }
}

} // verus!
