use bonsai::exclusion::{resolve, AxisMove, Motion};
use bonsai::geometry::I3;
use bonsai::occupancy::{Occupancy, TagIndex};
use bonsai::scan::{scan_neighbor, Probe};
use bonsai::terrain::{Block, Grid};

#[test]
fn occupancy_insert_remove_contains() {
    let mut occ = Occupancy::new();
    assert!(!occ.contains(I3(1, 2, 3)));
    assert!(occ.insert(I3(1, 2, 3)));
    assert!(!occ.insert(I3(1, 2, 3)));
    assert!(occ.contains(I3(1, 2, 3)));
    assert!(!occ.contains(I3(3, 2, 1)));
    assert!(occ.remove(I3(1, 2, 3)));
    assert!(!occ.remove(I3(1, 2, 3)));
    assert!(!occ.contains(I3(1, 2, 3)));
}

#[test]
fn occupancy_duplicate_is_independent() {
    let mut occ = Occupancy::new();
    occ.insert(I3(0, 0, 0));
    let mut copy = occ.duplicate();
    assert!(copy.contains(I3(0, 0, 0)));
    copy.insert(I3(1, 1, 1));
    copy.remove(I3(0, 0, 0));
    assert!(occ.contains(I3(0, 0, 0)));
    assert!(!occ.contains(I3(1, 1, 1)));
}

#[test]
fn tag_index_files_and_drops() {
    let mut tags = TagIndex::new();
    assert_eq!(tags.get(I3(0, 0, 0)), None);
    tags.insert(I3(0, 0, 0), 7, 42);
    tags.insert(I3(0, 0, 1), 8, 43);
    assert_eq!(tags.get(I3(0, 0, 0)), Some((7, 42)));
    assert_eq!(tags.get(I3(0, 0, 1)), Some((8, 43)));
    assert!(tags.contains(I3(0, 0, 1)));
    tags.insert(I3(0, 0, 0), 9, 44);
    assert_eq!(tags.get(I3(0, 0, 0)), Some((9, 44)));
    tags.remove(I3(0, 0, 0));
    assert_eq!(tags.get(I3(0, 0, 0)), None);
    assert!(!tags.contains(I3(0, 0, 0)));
    assert_eq!(tags.get(I3(0, 0, 1)), Some((8, 43)));
}

#[test]
fn scan_goes_x_then_y_then_z() {
    let grid = Grid::filled(5, 5, 5, Block::Air).unwrap();
    let mut occ = Occupancy::new();
    let tags = TagIndex::new();
    let c = I3(2, 2, 2);
    assert_eq!(scan_neighbor(c, Probe::Vacant(Block::Air), &occ, &grid, &tags), Some(I3(1, 1, 1)));
    occ.insert(I3(1, 1, 1));
    assert_eq!(scan_neighbor(c, Probe::Vacant(Block::Air), &occ, &grid, &tags), Some(I3(1, 1, 2)));
    occ.insert(I3(1, 1, 2));
    occ.insert(I3(1, 1, 3));
    assert_eq!(scan_neighbor(c, Probe::Vacant(Block::Air), &occ, &grid, &tags), Some(I3(1, 2, 1)));
    for y in 1..4i16 {
        for z in 1..4i16 {
            occ.insert(I3(1, y, z));
        }
    }
    assert_eq!(scan_neighbor(c, Probe::Vacant(Block::Air), &occ, &grid, &tags), Some(I3(2, 1, 1)));
}

#[test]
fn scan_leaves_out_the_centre() {
    let grid = Grid::filled(5, 5, 5, Block::Air).unwrap();
    let mut occ = Occupancy::new();
    let tags = TagIndex::new();
    let c = I3(2, 2, 2);
    for x in 1..4i16 {
        for y in 1..4i16 {
            for z in 1..4i16 {
                if (x, y, z) != (2, 2, 2) {
                    occ.insert(I3(x, y, z));
                }
            }
        }
    }
    assert_eq!(scan_neighbor(c, Probe::Vacant(Block::Air), &occ, &grid, &tags), None);
}

#[test]
fn scan_stays_inside_the_grid() {
    let grid = Grid::filled(2, 2, 2, Block::Air).unwrap();
    let occ = Occupancy::new();
    let tags = TagIndex::new();
    assert_eq!(
        scan_neighbor(I3(0, 0, 0), Probe::Vacant(Block::Air), &occ, &grid, &tags),
        Some(I3(0, 0, 1))
    );
    assert_eq!(
        scan_neighbor(I3(1, 1, 1), Probe::Vacant(Block::Air), &occ, &grid, &tags),
        Some(I3(0, 0, 0))
    );
    assert_eq!(scan_neighbor(I3(5, 5, 5), Probe::Vacant(Block::Air), &occ, &grid, &tags), None);
    assert_eq!(scan_neighbor(I3(-2, 0, 0), Probe::Vacant(Block::Air), &occ, &grid, &tags), None);
    assert_eq!(
        scan_neighbor(I3(32767, 32767, 32767), Probe::Vacant(Block::Air), &occ, &grid, &tags),
        None
    );
    assert_eq!(
        scan_neighbor(I3(-32768, -32768, -32768), Probe::Vacant(Block::Air), &occ, &grid, &tags),
        None
    );
    assert_eq!(
        scan_neighbor(I3(2, 2, 2), Probe::Vacant(Block::Air), &occ, &grid, &tags),
        Some(I3(1, 1, 1))
    );
}

#[test]
fn scan_by_terrain_and_tag() {
    let mut grid = Grid::filled(3, 3, 3, Block::Air).unwrap();
    grid.set(I3(0, 0, 0), Block::Soil);
    grid.set(I3(2, 1, 1), Block::Water);
    let occ = Occupancy::new();
    let mut tags = TagIndex::new();
    tags.insert(I3(0, 0, 0), 5, 100);
    tags.insert(I3(1, 2, 1), 6, 101);
    tags.insert(I3(2, 1, 1), 5, 102);
    let c = I3(1, 1, 1);
    assert_eq!(scan_neighbor(c, Probe::Vacant(Block::Water), &occ, &grid, &tags), Some(I3(2, 1, 1)));
    assert_eq!(scan_neighbor(c, Probe::Vacant(Block::Bedrock), &occ, &grid, &tags), None);
    assert_eq!(scan_neighbor(c, Probe::Tagged(5), &occ, &grid, &tags), Some(I3(0, 0, 0)));
    assert_eq!(scan_neighbor(c, Probe::Tagged(6), &occ, &grid, &tags), Some(I3(1, 2, 1)));
    assert_eq!(scan_neighbor(c, Probe::Tagged(7), &occ, &grid, &tags), None);
    assert_eq!(scan_neighbor(c, Probe::Foreign(Block::Soil), &occ, &grid, &tags), Some(I3(1, 2, 1)));
    assert_eq!(scan_neighbor(c, Probe::Foreign(Block::Air), &occ, &grid, &tags), Some(I3(0, 0, 0)));
    assert_eq!(scan_neighbor(c, Probe::Foreign(Block::Bedrock), &occ, &grid, &tags), Some(I3(0, 0, 0)));
}

#[test]
fn free_way_is_taken_whole() {
    let occ = Occupancy::new();
    let m = resolve(I3(5, 5, 5), I3(6, 4, 5), &occ);
    assert_eq!(
        m,
        Motion { pi: I3(6, 4, 5), x: AxisMove::Advance, y: AxisMove::Advance, z: AxisMove::Hold }
    );
}

#[test]
fn staying_put_looks_nothing_up() {
    let mut occ = Occupancy::new();
    occ.insert(I3(5, 5, 5));
    let m = resolve(I3(5, 5, 5), I3(5, 5, 5), &occ);
    assert_eq!(m, Motion::rest(I3(5, 5, 5)));
    assert_eq!(m.x, AxisMove::Hold);
    assert_eq!(m.pi, I3(5, 5, 5));
}

#[test]
fn blocked_axis_is_clamped_and_the_others_go_on() {
    let mut occ = Occupancy::new();
    occ.insert(I3(5, 5, 5));
    occ.insert(I3(6, 5, 5));
    let m = resolve(I3(5, 5, 5), I3(6, 5, 4), &occ);
    assert_eq!(
        m,
        Motion { pi: I3(5, 5, 4), x: AxisMove::BlockedHigh, y: AxisMove::Hold, z: AxisMove::Advance }
    );
    occ.insert(I3(4, 5, 5));
    let m = resolve(I3(5, 5, 5), I3(4, 6, 5), &occ);
    assert_eq!(
        m,
        Motion { pi: I3(5, 6, 5), x: AxisMove::BlockedLow, y: AxisMove::Advance, z: AxisMove::Hold }
    );
}

#[test]
fn later_axes_start_from_where_earlier_ones_ended() {
    let mut occ = Occupancy::new();
    occ.insert(I3(5, 5, 5));
    // The y candidate is tried from the new x: (6, 6, 5), not (5, 6, 5).
    occ.insert(I3(6, 6, 5));
    let m = resolve(I3(5, 5, 5), I3(6, 6, 6), &occ);
    assert_eq!(
        m,
        Motion {
            pi: I3(6, 5, 6),
            x: AxisMove::Advance,
            y: AxisMove::BlockedHigh,
            z: AxisMove::Advance
        }
    );
}

#[test]
fn diagonal_is_tried_axis_by_axis() {
    let mut occ = Occupancy::new();
    occ.insert(I3(5, 5, 5));
    // The voxel headed for is free, the way along x is not.
    occ.insert(I3(6, 5, 5));
    let m = resolve(I3(5, 5, 5), I3(6, 6, 5), &occ);
    assert_eq!(
        m,
        Motion { pi: I3(5, 6, 5), x: AxisMove::BlockedHigh, y: AxisMove::Advance, z: AxisMove::Hold }
    );
}
