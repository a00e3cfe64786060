//! The exclusion rule: how far a cell gets towards the voxel it is headed
//! for, given which voxels are claimed.
use vstd::prelude::*;
use crate::geometry::I3;
use crate::occupancy::Occupancy;

verus! {

/// What became of a cell's wish to move along one axis.
#[derive(Clone, Copy, Debug, PartialEq, Eq, Structural)]
pub enum AxisMove {
    /// The cell wished to stay in its voxel along this axis, and stays.
    Hold,
    /// The voxel it wished for was free: the cell has moved there.
    Advance,
    /// A claimed voxel stopped it on its way down the axis. It stays at the
    /// low face of its voxel and loses its velocity along the axis.
    BlockedLow,
    /// A claimed voxel stopped it on its way up the axis. It stays just
    /// inside the high face of its voxel and loses its velocity along the axis.
    BlockedHigh,
}

/// Where a cell ends up, and what happened along each axis.
#[derive(Clone, Copy, Debug, PartialEq, Eq, Structural)]
pub struct Motion {
    /// The voxel the cell stands in afterwards.
    pub pi: I3,
    pub x: AxisMove,
    pub y: AxisMove,
    pub z: AxisMove,
}

/// The outcome along one axis, given whether the voxel reached by moving
/// along this axis alone is claimed.
pub open spec fn axis_move(from: i16, to: i16, claimed: bool) -> AxisMove {
    if to == from {
        AxisMove::Hold
    } else if !claimed {
        AxisMove::Advance
    } else if to < from {
        AxisMove::BlockedLow
    } else {
        AxisMove::BlockedHigh
    }
}

/// The coordinate after the outcome `m` of a move from `from` to `to`.
pub open spec fn settle(from: i16, to: i16, m: AxisMove) -> i16 {
    if m == AxisMove::Advance {
        to
    } else {
        from
    }
}

/// A cell in voxel `pi` that did not try to move.
pub open spec fn at_rest(pi: I3) -> Motion {
    Motion { pi, x: AxisMove::Hold, y: AxisMove::Hold, z: AxisMove::Hold }
}

/// The move of a cell from voxel `pi` towards voxel `target`, one axis at a
/// time: x, then y, then z. Each axis is tried from where the axes before it
/// have left the cell.
pub open spec fn resolution(pi: I3, target: I3, occupied: Set<I3>) -> Motion {
    let x = axis_move(pi.0, target.0, occupied.contains(I3(target.0, pi.1, pi.2)));
    let px = settle(pi.0, target.0, x);
    let y = axis_move(pi.1, target.1, occupied.contains(I3(px, target.1, pi.2)));
    let py = settle(pi.1, target.1, y);
    let z = axis_move(pi.2, target.2, occupied.contains(I3(px, py, target.2)));
    let pz = settle(pi.2, target.2, z);
    Motion { pi: I3(px, py, pz), x, y, z }
}

impl Motion {
    /// The motion of a cell in voxel `pi` that did not try to move.
    pub fn rest(pi: I3) -> (m: Motion)
        ensures
            m == at_rest(pi),
    {
        Motion { pi, x: AxisMove::Hold, y: AxisMove::Hold, z: AxisMove::Hold }
    }
}

/// Resolves one axis: looks the candidate voxel up only where the cell wishes to move.
fn resolve_axis(from: i16, to: i16, candidate: I3, occupation: &Occupancy) -> (m: AxisMove)
    ensures
        m == axis_move(from, to, occupation@.contains(candidate)),
{
    if to == from {
        AxisMove::Hold
    } else if !occupation.contains(candidate) {
        AxisMove::Advance
    } else if to < from {
        AxisMove::BlockedLow
    } else {
        AxisMove::BlockedHigh
    }
}

/// The coordinate after the outcome `m` of a move from `from` to `to`.
fn settled(from: i16, to: i16, m: AxisMove) -> (p: i16)
    ensures
        p == settle(from, to, m),
{
    match m {
        AxisMove::Advance => to,
        _ => from,
    }
}

/// Decides how far a cell in voxel `pi` gets on its way to voxel `target`,
/// given the voxels that are claimed. The index is not changed: the caller
/// moves the cell's claim.
pub fn resolve(pi: I3, target: I3, occupation: &Occupancy) -> (m: Motion)
    ensures
        m == resolution(pi, target, occupation@),
{
    let x = resolve_axis(pi.0, target.0, I3(target.0, pi.1, pi.2), occupation);
    let px = settled(pi.0, target.0, x);
    let y = resolve_axis(pi.1, target.1, I3(px, target.1, pi.2), occupation);
    let py = settled(pi.1, target.1, y);
    let z = resolve_axis(pi.2, target.2, I3(px, py, target.2), occupation);
    let pz = settled(pi.2, target.2, z);
    Motion { pi: I3(px, py, pz), x, y, z }
}

/// The all-or-nothing move: a cell in voxel `pi` goes to `target` where
/// nothing claims it, and stays where something does. Either way it claims
/// the voxel it ends up in.
pub fn claim_or_stay(pi: I3, target: I3, occupation: &mut Occupancy) -> (end: I3)
    ensures
        end == if old(occupation)@.contains(target) {
            pi
        } else {
            target
        },
        final(occupation)@ == old(occupation)@.insert(end),
{
    let end = if occupation.contains(target) {
        pi
    } else {
        target
    };
    occupation.insert(end);
    end
}

/// A cell never ends up in a voxel that was claimed, except the one it
/// started in.
pub proof fn lemma_resolution_exclusive(pi: I3, target: I3, occupied: Set<I3>)
    ensures
        resolution(pi, target, occupied).pi == pi || !occupied.contains(
            resolution(pi, target, occupied).pi,
        ),
{
}

/// Along each axis the cell stays where it was or reaches what it wished
/// for; it advances only where it wished to move, and a cell that wished to
/// stay in its voxel stays.
pub proof fn lemma_resolution_axes(pi: I3, target: I3, occupied: Set<I3>)
    ensures
        ({
            let m = resolution(pi, target, occupied);
            &&& m.pi.0 == settle(pi.0, target.0, m.x)
            &&& m.pi.1 == settle(pi.1, target.1, m.y)
            &&& m.pi.2 == settle(pi.2, target.2, m.z)
            &&& (m.x == AxisMove::Hold <==> target.0 == pi.0)
            &&& (m.y == AxisMove::Hold <==> target.1 == pi.1)
            &&& (m.z == AxisMove::Hold <==> target.2 == pi.2)
            &&& (m.x == AxisMove::BlockedLow ==> target.0 < pi.0)
            &&& (m.x == AxisMove::BlockedHigh ==> target.0 > pi.0)
            &&& (m.y == AxisMove::BlockedLow ==> target.1 < pi.1)
            &&& (m.y == AxisMove::BlockedHigh ==> target.1 > pi.1)
            &&& (m.z == AxisMove::BlockedLow ==> target.2 < pi.2)
            &&& (m.z == AxisMove::BlockedHigh ==> target.2 > pi.2)
            &&& (target == pi ==> m == at_rest(pi))
            &&& (!occupied.contains(I3(target.0, pi.1, pi.2)) && !occupied.contains(
                I3(target.0, target.1, pi.2),
            ) && !occupied.contains(target) ==> m.pi == target)
        }),
{
}

} // verus!
