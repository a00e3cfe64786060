use bonsai::geometry::I3;
use bonsai::terrain::{block_for, Block, Grid};

#[test]
fn filled_grid_holds_the_block_everywhere() {
    let g = Grid::filled(4, 5, 6, Block::Soil).unwrap();
    assert_eq!(g.size(), (4, 5, 6));
    assert_eq!(g.block_at(I3(0, 0, 0)), Some(Block::Soil));
    assert_eq!(g.block_at(I3(3, 4, 5)), Some(Block::Soil));
    assert_eq!(g.block_at(I3(4, 0, 0)), None);
    assert_eq!(g.block_at(I3(0, 5, 0)), None);
    assert_eq!(g.block_at(I3(0, 0, 6)), None);
    assert_eq!(g.block_at(I3(-1, 0, 0)), None);
}

#[test]
fn grid_extent_must_fit_a_coordinate() {
    assert!(Grid::filled(0x8000, 1, 1, Block::Air).is_none());
    assert!(Grid::filled(1, 0x8000, 1, Block::Air).is_none());
    assert!(Grid::filled(1, 1, 0x8000, Block::Air).is_none());
    assert!(Grid::filled(0x7fff, 1, 1, Block::Air).is_some());
    assert!(Grid::filled(0, 0, 0, Block::Air).is_some());
}

#[test]
fn set_changes_one_voxel_only() {
    let mut g = Grid::filled(3, 3, 3, Block::Air).unwrap();
    assert!(g.set(I3(1, 2, 0), Block::Water));
    assert_eq!(g.size(), (3, 3, 3));
    for x in 0..3i16 {
        for y in 0..3i16 {
            for z in 0..3i16 {
                let want = if (x, y, z) == (1, 2, 0) { Block::Water } else { Block::Air };
                assert_eq!(g.get(I3(x, y, z)), want);
            }
        }
    }
}

#[test]
fn set_outside_the_grid_does_nothing() {
    let mut g = Grid::filled(2, 2, 2, Block::Air).unwrap();
    assert!(!g.set(I3(2, 0, 0), Block::Bedrock));
    assert!(!g.set(I3(0, -1, 0), Block::Bedrock));
    for x in 0..2i16 {
        for y in 0..2i16 {
            for z in 0..2i16 {
                assert_eq!(g.get(I3(x, y, z)), Block::Air);
            }
        }
    }
}

#[test]
fn contains_agrees_with_the_extent() {
    let g = Grid::filled(2, 3, 4, Block::Air).unwrap();
    assert!(g.contains(I3(1, 2, 3)));
    assert!(!g.contains(I3(2, 2, 3)));
    assert!(!g.contains(I3(1, 3, 3)));
    assert!(!g.contains(I3(1, 2, 4)));
    assert!(!g.contains(I3(0, 0, -1)));
}

#[test]
fn operand_selects_block() {
    assert_eq!(block_for(0), Block::Bedrock);
    assert_eq!(block_for(1), Block::Soil);
    assert_eq!(block_for(2), Block::Water);
    assert_eq!(block_for(3), Block::Air);
}

#[test]
fn keys_of_voxels_differ() {
    let a = I3(0, 0, 1).key();
    let b = I3(0, 1, 0).key();
    let c = I3(1, 0, 0).key();
    let d = I3(-1, 0, 0).key();
    assert!(a != b && a != c && a != d && b != c && b != d && c != d);
    assert_eq!(I3(-32768, -32768, -32768).key(), 0);
    assert_eq!(I3(32767, 32767, 32767).key(), 0xffff_ffff_ffff);
    assert_eq!(I3(0, 0, 0).key(), 0x8000_8000_8000);
}

fn snapshot(g: &Grid) -> Vec<(I3, Block)> {
    let (nx, ny, nz) = g.size();
    let mut all = vec![];
    for x in 0..nx as i16 {
        for y in 0..ny as i16 {
            for z in 0..nz as i16 {
                all.push((I3(x, y, z), g.get(I3(x, y, z))));
            }
        }
    }
    all
}

#[test]
fn fill_column_fills_the_heights_between() {
    let mut g = Grid::filled(3, 3, 6, Block::Air).unwrap();
    let before = snapshot(&g);
    g.fill_column(1, 2, 1, 4, Block::Soil);
    for (v, b) in before {
        let want = if v.0 == 1 && v.1 == 2 && 1 <= v.2 && v.2 <= 4 { Block::Soil } else { b };
        assert_eq!(g.get(v), want, "{:?}", v);
    }
    let before = snapshot(&g);
    g.fill_column(0, 0, 5, 5, Block::Water);
    g.fill_column(2, 2, 3, 2, Block::Bedrock);
    for (v, b) in before {
        let want = if v == I3(0, 0, 5) { Block::Water } else { b };
        assert_eq!(g.get(v), want, "{:?}", v);
    }
}

#[test]
fn column_top_is_the_highest_block_but_air() {
    let mut g = Grid::filled(2, 2, 5, Block::Air).unwrap();
    assert_eq!(g.column_top(0, 0), 0);
    g.set(I3(0, 0, 0), Block::Soil);
    assert_eq!(g.column_top(0, 0), 0);
    g.set(I3(0, 0, 2), Block::Water);
    assert_eq!(g.column_top(0, 0), 2);
    g.set(I3(0, 0, 4), Block::Soil);
    assert_eq!(g.column_top(0, 0), 4);
    assert_eq!(g.column_top(1, 0), 0);
    let g = Grid::filled(2, 2, 1, Block::Soil).unwrap();
    assert_eq!(g.column_top(1, 1), 0);
}

#[test]
fn raise_column_grows_the_top_and_hardens_the_ground() {
    let mut g = Grid::filled(2, 2, 6, Block::Air).unwrap();
    g.fill_column(0, 1, 0, 2, Block::Soil);
    g.raise_column(0, 1, 3);
    let column: Vec<Block> = (0..6).map(|z| g.get(I3(0, 1, z))).collect();
    assert_eq!(
        column,
        vec![Block::Bedrock, Block::Soil, Block::Soil, Block::Soil, Block::Soil, Block::Air]
    );
    // By nothing: only the ground changes.
    let mut g = Grid::filled(2, 2, 6, Block::Air).unwrap();
    g.set(I3(1, 1, 3), Block::Water);
    g.raise_column(1, 1, 0);
    let column: Vec<Block> = (0..6).map(|z| g.get(I3(1, 1, z))).collect();
    assert_eq!(
        column,
        vec![Block::Bedrock, Block::Air, Block::Air, Block::Water, Block::Air, Block::Air]
    );
    // Growth stops at the top of the grid.
    g.raise_column(1, 1, 100);
    let column: Vec<Block> = (0..6).map(|z| g.get(I3(1, 1, z))).collect();
    assert_eq!(
        column,
        vec![Block::Bedrock, Block::Air, Block::Air, Block::Water, Block::Water, Block::Water]
    );
    // A column of Air grows Air from the ground.
    g.raise_column(0, 0, 2);
    let column: Vec<Block> = (0..6).map(|z| g.get(I3(0, 0, z))).collect();
    assert_eq!(column, vec![Block::Bedrock, Block::Air, Block::Air, Block::Air, Block::Air, Block::Air]);
    assert_eq!(g.get(I3(1, 0, 0)), Block::Air);
}

#[test]
fn lay_floor_covers_the_ground_only() {
    let mut g = Grid::filled(3, 4, 3, Block::Air).unwrap();
    g.set(I3(1, 1, 1), Block::Water);
    let before = snapshot(&g);
    g.lay_floor(Block::Bedrock);
    for (v, b) in before {
        let want = if v.2 == 0 { Block::Bedrock } else { b };
        assert_eq!(g.get(v), want, "{:?}", v);
    }
    let mut g = Grid::filled(3, 4, 0, Block::Air).unwrap();
    g.lay_floor(Block::Bedrock);
    assert_eq!(g.size(), (3, 4, 0));
}
