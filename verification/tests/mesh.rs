use bonsai::exclusion::claim_or_stay;
use bonsai::geometry::I3;
use bonsai::mesh::{boundary_faces, quads, Axis, BlockVertex, Face};
use bonsai::occupancy::Occupancy;
use bonsai::terrain::{Block, Grid};
use bonsai::world::World;

#[test]
fn uniform_terrain_has_no_faces() {
    let g = Grid::filled(4, 4, 4, Block::Soil).unwrap();
    assert!(boundary_faces(&g).is_empty());
    let g = Grid::filled(0, 3, 3, Block::Soil).unwrap();
    assert!(boundary_faces(&g).is_empty());
    let g = Grid::filled(1, 1, 1, Block::Soil).unwrap();
    assert!(boundary_faces(&g).is_empty());
}

#[test]
fn one_block_shows_the_faces_around_it() {
    let mut g = Grid::filled(4, 4, 4, Block::Air).unwrap();
    g.set(I3(1, 1, 1), Block::Water);
    let faces = boundary_faces(&g);
    let f = |x, y, z, axis| Face { base: I3(x, y, z), axis, kind: 2 };
    assert_eq!(
        faces,
        vec![
            f(1, 1, 0, Axis::Z),
            f(1, 0, 1, Axis::Y),
            f(0, 1, 1, Axis::X),
            f(1, 1, 1, Axis::X),
            f(1, 1, 1, Axis::Y),
            f(1, 1, 1, Axis::Z),
        ]
    );
}

#[test]
fn the_last_layer_along_each_axis_has_no_faces_of_its_own() {
    let mut g = Grid::filled(3, 3, 3, Block::Air).unwrap();
    g.set(I3(2, 2, 2), Block::Bedrock);
    // The voxel is the upper neighbour of none that has neighbours up all axes.
    assert!(boundary_faces(&g).is_empty());
    g.set(I3(2, 1, 1), Block::Bedrock);
    assert_eq!(boundary_faces(&g), vec![Face { base: I3(1, 1, 1), axis: Axis::X, kind: 3 }]);
}

#[test]
fn boundary_kind_is_that_of_the_stronger_block() {
    let mut g = Grid::filled(3, 2, 2, Block::Soil).unwrap();
    g.set(I3(1, 0, 0), Block::Air);
    g.set(I3(2, 0, 0), Block::Bedrock);
    assert_eq!(
        boundary_faces(&g),
        vec![
            Face { base: I3(0, 0, 0), axis: Axis::X, kind: 1 },
            Face { base: I3(1, 0, 0), axis: Axis::X, kind: 3 },
            Face { base: I3(1, 0, 0), axis: Axis::Y, kind: 1 },
            Face { base: I3(1, 0, 0), axis: Axis::Z, kind: 1 },
        ]
    );
    let mut g = Grid::filled(4, 2, 2, Block::Soil).unwrap();
    g.set(I3(1, 0, 0), Block::Air);
    g.set(I3(2, 0, 0), Block::Bedrock);
    assert_eq!(
        boundary_faces(&g),
        vec![
            Face { base: I3(0, 0, 0), axis: Axis::X, kind: 1 },
            Face { base: I3(1, 0, 0), axis: Axis::X, kind: 3 },
            Face { base: I3(1, 0, 0), axis: Axis::Y, kind: 1 },
            Face { base: I3(1, 0, 0), axis: Axis::Z, kind: 1 },
            Face { base: I3(2, 0, 0), axis: Axis::X, kind: 3 },
            Face { base: I3(2, 0, 0), axis: Axis::Y, kind: 3 },
            Face { base: I3(2, 0, 0), axis: Axis::Z, kind: 3 },
        ]
    );
}

#[test]
fn quads_have_four_corners_and_two_triangles() {
    let faces = vec![
        Face { base: I3(1, 2, 3), axis: Axis::X, kind: 2 },
        Face { base: I3(1, 2, 3), axis: Axis::Y, kind: 1 },
        Face { base: I3(4, 5, 6), axis: Axis::Z, kind: 3 },
    ];
    let mesh = quads(&faces).unwrap();
    let v = |x, y, z, bnd_type| BlockVertex { pos: (x, y, z), bnd_type };
    assert_eq!(
        mesh.vertices,
        vec![
            v(2, 2, 3, 2),
            v(2, 3, 3, 2),
            v(2, 2, 4, 2),
            v(2, 3, 4, 2),
            v(1, 3, 3, 1),
            v(1, 3, 4, 1),
            v(2, 3, 3, 1),
            v(2, 3, 4, 1),
            v(4, 5, 7, 3),
            v(5, 5, 7, 3),
            v(4, 6, 7, 3),
            v(5, 6, 7, 3),
        ]
    );
    assert_eq!(mesh.indices, vec![0, 1, 2, 2, 1, 3, 4, 5, 6, 6, 5, 7, 8, 9, 10, 10, 9, 11]);
    let none = quads(&vec![]).unwrap();
    assert!(none.vertices.is_empty() && none.indices.is_empty());
}

#[test]
fn duplicate_is_a_copy_of_its_own() {
    let mut g = Grid::filled(2, 3, 4, Block::Air).unwrap();
    g.set(I3(1, 2, 3), Block::Water);
    let mut copy = g.duplicate();
    assert_eq!(copy.size(), (2, 3, 4));
    assert_eq!(copy.block_at(I3(1, 2, 3)), Some(Block::Water));
    assert_eq!(copy.block_at(I3(0, 0, 0)), Some(Block::Air));
    copy.set(I3(0, 0, 0), Block::Soil);
    assert_eq!(g.block_at(I3(0, 0, 0)), Some(Block::Air));
}

#[test]
fn all_or_nothing_move() {
    let mut occ = Occupancy::new();
    assert_eq!(claim_or_stay(I3(0, 0, 0), I3(1, 1, 1), &mut occ), I3(1, 1, 1));
    assert!(occ.contains(I3(1, 1, 1)));
    assert!(!occ.contains(I3(0, 0, 0)));
    assert_eq!(claim_or_stay(I3(2, 2, 2), I3(1, 1, 1), &mut occ), I3(2, 2, 2));
    assert!(occ.contains(I3(2, 2, 2)));
}

#[test]
fn spawn_adds_a_full_cell() {
    let mut w = World::new(4, 4).unwrap();
    let mut bank0 = [0u8; 128];
    for (k, b) in bank0.iter_mut().enumerate() {
        *b = 255 - k as u8;
    }
    assert_eq!(w.spawn(I3(1, 2, 3), &bank0), 0);
    assert_eq!(w.spawn(I3(3, 2, 1), &bank0), 1);
    assert_eq!(w.next_id(), 2);
    assert_eq!(w.cells.len(), 2);
    let c = w.cells[1];
    assert_eq!((c.id, c.pi, c.epsilon, c.decay, c.ip), (1, I3(3, 2, 1), 255, 0, 0));
    assert_eq!(&c.prog[..128], &bank0[..]);
    assert_eq!(&c.prog[128..], &[0u8; 128][..]);
    assert_eq!(c.regs, [0; 4]);
    assert!(!c.ext && !c.result);
    assert_eq!(w.validate(), Ok(()));
}
