//! The scan of the up to 26 voxels around a cell, in a fixed order, for the
//! first that has what the cell looks for.
use vstd::prelude::*;
use crate::geometry::{I3, adjacent, scan_before};
use crate::occupancy::{Occupancy, TagIndex};
use crate::terrain::{Block, Grid};

verus! {

/// What a cell can see of the world while it runs one instruction: the claimed
/// voxels, the terrain, and the tags of the cells around it.
pub struct Env {
    pub occupied: Set<I3>,
    pub grid: Grid,
    pub tags: Map<I3, (u8, u64)>,
}

/// The view that the three indexes give together.
pub open spec fn env_of(occupation: &Occupancy, blocks: &Grid, cell_tags: &TagIndex) -> Env {
    Env { occupied: occupation@, grid: *blocks, tags: cell_tags@ }
}

/// What a scan of the neighbourhood looks for.
#[derive(Clone, Copy, Debug, PartialEq, Eq, Structural)]
pub enum Probe {
    /// A voxel of the given terrain that nothing claims.
    Vacant(Block),
    /// A voxel in which a cell with the given tag stands.
    Tagged(u8),
    /// A voxel of any terrain but the given one in which a tagged cell stands.
    Foreign(Block),
}

/// Voxel `v` is what `probe` looks for.
pub open spec fn hit(probe: Probe, env: Env, v: I3) -> bool {
    match probe {
        Probe::Vacant(b) => env.grid.block(v) == b && !env.occupied.contains(v),
        Probe::Tagged(t) => env.tags.contains_key(v) && env.tags[v].0 == t,
        Probe::Foreign(b) => env.grid.block(v) != b && env.tags.contains_key(v),
    }
}

/// Voxel `v` is one of the up to 26 voxels of the grid around `center`.
pub open spec fn in_reach(grid: Grid, center: I3, v: I3) -> bool {
    adjacent(center, v) && grid.has(v)
}

/// Voxel `v` is what the scan around `center` returns: a hit in reach before
/// which, in scan order, no other hit in reach comes.
pub open spec fn is_first_hit(probe: Probe, env: Env, center: I3, v: I3) -> bool {
    &&& in_reach(env.grid, center, v)
    &&& hit(probe, env, v)
    &&& forall|w: I3|
        in_reach(env.grid, center, w) && #[trigger] hit(probe, env, w) ==> !scan_before(w, v)
}

/// The result of the scan around `center`: the first hit in scan order
/// (ascending x, then y, then z), or `None` where no voxel in reach is a hit.
pub open spec fn first_hit(probe: Probe, env: Env, center: I3) -> Option<I3> {
    if exists|v: I3| is_first_hit(probe, env, center, v) {
        Some(choose|v: I3| is_first_hit(probe, env, center, v))
    } else {
        None
    }
}

/// The scan has at most one result.
pub proof fn lemma_first_hit_unique(probe: Probe, env: Env, center: I3, a: I3, b: I3)
    requires
        is_first_hit(probe, env, center, a),
        is_first_hit(probe, env, center, b),
    ensures
        a == b,
{
}

/// A voxel that meets the definition of the first hit is the scan's result.
pub proof fn lemma_first_hit_is(probe: Probe, env: Env, center: I3, v: I3)
    requires
        is_first_hit(probe, env, center, v),
    ensures
        first_hit(probe, env, center) == Some(v),
{
    let c = choose|v: I3| is_first_hit(probe, env, center, v);
    lemma_first_hit_unique(probe, env, center, c, v);
}

/// Where no voxel in reach is a hit, the scan has no result.
pub proof fn lemma_first_hit_none(probe: Probe, env: Env, center: I3)
    requires
        forall|w: I3| in_reach(env.grid, center, w) ==> !#[trigger] hit(probe, env, w),
    ensures
        first_hit(probe, env, center) is None,
{
}

/// What the scan returns is in reach of the centre, is a hit, and no hit in
/// reach comes before it.
pub proof fn lemma_first_hit_found(probe: Probe, env: Env, center: I3)
    ensures
        first_hit(probe, env, center) matches Some(v) ==> is_first_hit(probe, env, center, v),
        first_hit(probe, env, center) is None ==> forall|w: I3|
            in_reach(env.grid, center, w) ==> !#[trigger] hit(probe, env, w),
{
    if first_hit(probe, env, center) is None {
        assert forall|w: I3| in_reach(env.grid, center, w) implies !#[trigger] hit(
            probe,
            env,
            w,
        ) by {
            if hit(probe, env, w) {
                lemma_some_hit_gives_first(probe, env, center, w);
            }
        }
    }
}

/// Voxel `w` is in reach of `center` and a hit.
spec fn hits_up_to(probe: Probe, env: Env, center: I3, w: I3) -> bool {
    in_reach(env.grid, center, w) && hit(probe, env, w)
}

/// The place of a voxel in the scan of the box around `center`: 0 to 26.
spec fn rank(center: I3, v: I3) -> int {
    (v.0 - center.0 + 1) * 9 + (v.1 - center.1 + 1) * 3 + (v.2 - center.2 + 1)
}

/// Among the hits of rank up to `n`, if there is any, there is a first one.
proof fn lemma_least_hit(probe: Probe, env: Env, center: I3, w: I3, n: int)
    requires
        hits_up_to(probe, env, center, w),
        rank(center, w) <= n,
    ensures
        exists|v: I3| is_first_hit(probe, env, center, v),
    decreases n,
{
    if is_first_hit(probe, env, center, w) {
    } else {
        let u = choose|u: I3|
            in_reach(env.grid, center, u) && #[trigger] hit(probe, env, u) && scan_before(u, w);
        assert(rank(center, u) < rank(center, w));
        assert(rank(center, u) >= 0);
        lemma_least_hit(probe, env, center, u, n - 1);
    }
}

/// Where some voxel in reach is a hit, the scan has a result.
pub proof fn lemma_some_hit_gives_first(probe: Probe, env: Env, center: I3, w: I3)
    requires
        in_reach(env.grid, center, w),
        hit(probe, env, w),
    ensures
        first_hit(probe, env, center) is Some,
{
    lemma_least_hit(probe, env, center, w, rank(center, w));
}

/// Whether `v` is what `probe` looks for.
fn probe_hits(
    probe: Probe,
    v: I3,
    occupation: &Occupancy,
    blocks: &Grid,
    cell_tags: &TagIndex,
) -> (r: bool)
    requires
        blocks.has(v),
    ensures
        r == hit(probe, env_of(occupation, blocks, cell_tags), v),
{
    match probe {
        Probe::Vacant(b) => blocks.get(v) == b && !occupation.contains(v),
        Probe::Tagged(t) => {
            match cell_tags.get(v) {
                Some(entry) => entry.0 == t,
                None => false,
            }
        },
        Probe::Foreign(b) => blocks.get(v) != b && cell_tags.contains(v),
    }
}

/// The lower end of the scan along one axis: one below the centre, but not below the origin.
fn scan_from(c: i16) -> (lo: i32)
    ensures
        lo == if c >= 1 {
            c - 1
        } else {
            0
        },
{
    if c >= 1 {
        c as i32 - 1
    } else {
        0
    }
}

/// The upper end of the scan along one axis, exclusive: two above the centre,
/// but within the grid's extent `n` and the range of a coordinate.
fn scan_to(c: i16, n: usize) -> (hi: i32)
    ensures
        hi <= c + 2,
        hi <= n,
        hi <= 0x8000,
        hi == c + 2 || hi == n || hi == 0x8000,
{
    let mut hi: i32 = c as i32 + 2;
    if hi > 0x8000 {
        hi = 0x8000;
    }
    if n < 0x8000 && (n as i32) < hi {
        hi = n as i32;
    }
    hi
}

/// Scans the voxels of the grid around `center` in ascending x, then y, then
/// z, leaving out `center` itself, and returns the first that `probe` looks for.
pub fn scan_neighbor(
    center: I3,
    probe: Probe,
    occupation: &Occupancy,
    blocks: &Grid,
    cell_tags: &TagIndex,
) -> (found: Option<I3>)
    ensures
        found == first_hit(probe, env_of(occupation, blocks, cell_tags), center),
{
    let ghost env = env_of(occupation, blocks, cell_tags);
    let d = blocks.size();
    let x0 = scan_from(center.0);
    let x1 = scan_to(center.0, d.0);
    let y0 = scan_from(center.1);
    let y1 = scan_to(center.1, d.1);
    let z0 = scan_from(center.2);
    let z1 = scan_to(center.2, d.2);
    let mut x: i32 = x0;
    while x < x1
        invariant
            env == env_of(occupation, blocks, cell_tags),
            (d.0 as nat, d.1 as nat, d.2 as nat) == blocks.extent(),
            x0 == if center.0 >= 1 { center.0 - 1 } else { 0 },
            y0 == if center.1 >= 1 { center.1 - 1 } else { 0 },
            z0 == if center.2 >= 1 { center.2 - 1 } else { 0 },
            x1 <= center.0 + 2 && x1 <= d.0 && x1 <= 0x8000,
            y1 <= center.1 + 2 && y1 <= d.1 && y1 <= 0x8000,
            z1 <= center.2 + 2 && z1 <= d.2 && z1 <= 0x8000,
            x1 == center.0 + 2 || x1 == d.0 || x1 == 0x8000,
            y1 == center.1 + 2 || y1 == d.1 || y1 == 0x8000,
            z1 == center.2 + 2 || z1 == d.2 || z1 == 0x8000,
            x0 <= x,
            forall|w: I3| in_reach(env.grid, center, w) && w.0 < x ==> !#[trigger] hit(probe, env, w),
        decreases x1 - x,
    {
        let mut y: i32 = y0;
        while y < y1
            invariant
                env == env_of(occupation, blocks, cell_tags),
                (d.0 as nat, d.1 as nat, d.2 as nat) == blocks.extent(),
                z0 == if center.2 >= 1 { center.2 - 1 } else { 0 },
                y0 == if center.1 >= 1 { center.1 - 1 } else { 0 },
                z1 <= center.2 + 2 && z1 <= d.2 && z1 <= 0x8000,
                z1 == center.2 + 2 || z1 == d.2 || z1 == 0x8000,
                y1 <= center.1 + 2 && y1 <= d.1 && y1 <= 0x8000,
                x0 == if center.0 >= 1 { center.0 - 1 } else { 0 },
                x1 <= center.0 + 2 && x1 <= d.0 && x1 <= 0x8000,
                x0 <= x < x1,
                y0 <= y,
                forall|w: I3|
                    in_reach(env.grid, center, w) && (w.0 < x || (w.0 == x && w.1 < y))
                        ==> !#[trigger] hit(probe, env, w),
            decreases y1 - y,
        {
            let mut z: i32 = z0;
            while z < z1
                invariant
                    env == env_of(occupation, blocks, cell_tags),
                    (d.0 as nat, d.1 as nat, d.2 as nat) == blocks.extent(),
                    z0 == if center.2 >= 1 { center.2 - 1 } else { 0 },
                    z1 <= center.2 + 2 && z1 <= d.2 && z1 <= 0x8000,
                    y0 == if center.1 >= 1 { center.1 - 1 } else { 0 },
                    y1 <= center.1 + 2 && y1 <= d.1 && y1 <= 0x8000,
                    x0 == if center.0 >= 1 { center.0 - 1 } else { 0 },
                    x1 <= center.0 + 2 && x1 <= d.0 && x1 <= 0x8000,
                    x0 <= x < x1,
                    y0 <= y < y1,
                    z0 <= z,
                    forall|w: I3|
                        in_reach(env.grid, center, w) && (w.0 < x || (w.0 == x && (w.1 < y || (w.1
                            == y && w.2 < z)))) ==> !#[trigger] hit(probe, env, w),
                decreases z1 - z,
            {
                let v = I3(x as i16, y as i16, z as i16);
                if !(v.0 == center.0 && v.1 == center.1 && v.2 == center.2) {
                    if probe_hits(probe, v, occupation, blocks, cell_tags) {
                        proof {
                            assert(is_first_hit(probe, env, center, v));
                            lemma_first_hit_is(probe, env, center, v);
                        }
                        return Some(v);
                    }
                }
                z = z + 1;
            }
            y = y + 1;
        }
        x = x + 1;
    }
    proof {
        lemma_first_hit_none(probe, env, center);
    }
    None
}

} // verus!
