//! The mesh of the terrain: a quad wherever two neighbouring voxels hold
//! different blocks.
use vstd::prelude::*;
use crate::geometry::I3;
use crate::terrain::{Block, Grid, encode_boundary_type, span, span_of, strength};

verus! {

/// The axis that a face of the terrain's mesh is at right angles to.
#[derive(Clone, Copy, Debug, PartialEq, Eq, Structural)]
pub enum Axis {
    X,
    Y,
    Z,
}

/// A face between a voxel and its neighbour one step up an axis, where the
/// two hold different blocks.
#[derive(Clone, Copy, Debug, PartialEq, Eq, Structural)]
pub struct Face {
    /// The voxel on the low side of the face.
    pub base: I3,
    pub axis: Axis,
    /// The kind of boundary, by the stronger of the two blocks.
    pub kind: u32,
}

/// A corner of a face: a lattice point and the kind of the face.
#[derive(Clone, Copy, Debug, PartialEq, Eq)]
pub struct BlockVertex {
    pub pos: (i32, i32, i32),
    pub bnd_type: u32,
}

/// Corners, and triangles as triples of corner numbers.
#[derive(Clone, Debug, PartialEq, Eq)]
pub struct Mesh {
    pub vertices: Vec<BlockVertex>,
    pub indices: Vec<u32>,
}

/// The place of an axis in the order x, y, z.
pub open spec fn axis_rank(a: Axis) -> int {
    match a {
        Axis::X => 0,
        Axis::Y => 1,
        Axis::Z => 2,
    }
}

/// The neighbour of `v` one step up the axis.
pub open spec fn next_along(v: I3, a: Axis) -> I3 {
    match a {
        Axis::X => I3((v.0 + 1) as i16, v.1, v.2),
        Axis::Y => I3(v.0, (v.1 + 1) as i16, v.2),
        Axis::Z => I3(v.0, v.1, (v.2 + 1) as i16),
    }
}

/// `v` is a voxel of the grid with a neighbour in the grid up every axis.
pub open spec fn inner(grid: Grid, v: I3) -> bool {
    &&& 0 <= v.0 && v.0 + 1 < grid.extent().0 && v.0 + 1 < 0x8000
    &&& 0 <= v.1 && v.1 + 1 < grid.extent().1 && v.1 + 1 < 0x8000
    &&& 0 <= v.2 && v.2 + 1 < grid.extent().2 && v.2 + 1 < 0x8000
}

/// The kind of the boundary between two blocks: the strength of the stronger.
pub open spec fn boundary(a: Block, b: Block) -> u32 {
    if strength(a) >= strength(b) {
        strength(a)
    } else {
        strength(b)
    }
}

/// `f` is a face of the terrain's mesh.
pub open spec fn is_face(grid: Grid, f: Face) -> bool {
    &&& inner(grid, f.base)
    &&& grid.block(f.base) != grid.block(next_along(f.base, f.axis))
    &&& f.kind == boundary(grid.block(f.base), grid.block(next_along(f.base, f.axis)))
}

/// Voxel `a` comes before voxel `b` where layers are gone through bottom
/// up, rows within a layer by ascending y, voxels within a row by ascending x.
pub open spec fn layer_before(a: I3, b: I3) -> bool {
    a.2 < b.2 || (a.2 == b.2 && (a.1 < b.1 || (a.1 == b.1 && a.0 < b.0)))
}

/// The order of the faces in the mesh: by base voxel, then by axis.
pub open spec fn face_before(a: Face, b: Face) -> bool {
    layer_before(a.base, b.base) || (a.base == b.base && axis_rank(a.axis) < axis_rank(b.axis))
}

/// `fs` lists faces of the terrain only, in the order of the mesh.
pub open spec fn faces_sound(grid: Grid, fs: Seq<Face>) -> bool {
    &&& forall|k: int| 0 <= k < fs.len() ==> is_face(grid, #[trigger] fs[k])
    &&& forall|i: int, j: int| 0 <= i < j < fs.len() ==> face_before(#[trigger] fs[i], #[trigger] fs[j])
}

/// `fs` lists `f`.
pub open spec fn listed(fs: Seq<Face>, f: Face) -> bool {
    exists|k: int| 0 <= k < fs.len() && fs[k] == f
}

/// Adds the face of `v` up the axis, if there is one.
fn face_at(grid: &Grid, v: I3, axis: Axis, faces: &mut Vec<Face>)
    requires
        inner(*grid, v),
        faces_sound(*grid, old(faces)@),
        forall|k: int|
            0 <= k < old(faces)@.len() ==> face_before(
                #[trigger] old(faces)@[k],
                Face { base: v, axis, kind: 0 },
            ),
    ensures
        faces_sound(*grid, final(faces)@),
        forall|f: Face| listed(old(faces)@, f) ==> listed(final(faces)@, f),
        forall|f: Face|
            is_face(*grid, f) && f.base == v && f.axis == axis ==> listed(final(faces)@, f),
        forall|k: int|
            0 <= k < final(faces)@.len() ==> face_before(#[trigger] final(faces)@[k], Face { base: v, axis, kind: 0 })
                || (final(faces)@[k].base == v && final(faces)@[k].axis == axis),
{
    let w = match axis {
        Axis::X => I3(v.0 + 1, v.1, v.2),
        Axis::Y => I3(v.0, v.1 + 1, v.2),
        Axis::Z => I3(v.0, v.1, v.2 + 1),
    };
    let a = grid.get(v);
    let b = grid.get(w);
    if a != b {
        let f = Face { base: v, axis, kind: encode_boundary_type(a, b) };
        let ghost before = faces@;
        faces.push(f);
        proof {
            assert forall|g: Face| listed(before, g) implies listed(faces@, g) by {
                let k = choose|k: int| 0 <= k < before.len() && before[k] == g;
                assert(faces@[k] == g);
            }
            assert(faces@[before.len() as int] == f);
            assert forall|g: Face| is_face(*grid, g) && g.base == v && g.axis == axis implies listed(
                faces@,
                g,
            ) by {
                assert(g == f);
            }
        }
    }
}

/// The faces of the terrain's mesh: one for each pair of neighbouring voxels
/// that hold different blocks, among the voxels that have a neighbour up
/// every axis. They come by ascending z, then y, then x of the lower voxel,
/// and for one voxel in the order x, y, z of the axes.
pub fn boundary_faces(grid: &Grid) -> (faces: Vec<Face>)
    ensures
        faces_sound(*grid, faces@),
        forall|f: Face| is_face(*grid, f) ==> listed(faces@, f),
{
    let d = grid.size();
    let mut faces: Vec<Face> = Vec::new();
    if d.0 == 0 || d.1 == 0 || d.2 == 0 {
        return faces;
    }
    let nx: i16 = (span_of(d.0) - 1) as i16;
    let ny: i16 = (span_of(d.1) - 1) as i16;
    let nz: i16 = (span_of(d.2) - 1) as i16;
    let mut z: i16 = 0;
    while z < nz
        invariant
            (d.0 as nat, d.1 as nat, d.2 as nat) == grid.extent(),
            nx == span(d.0) - 1 && ny == span(d.1) - 1 && nz == span(d.2) - 1,
            nx >= 0 && ny >= 0 && nz >= 0,
            0 <= z <= nz,
            faces_sound(*grid, faces@),
            forall|k: int| 0 <= k < faces@.len() ==> (#[trigger] faces@[k]).base.2 < z,
            forall|f: Face| is_face(*grid, f) && f.base.2 < z ==> listed(faces@, f),
        decreases nz - z,
    {
        let mut y: i16 = 0;
        while y < ny
            invariant
                    (d.0 as nat, d.1 as nat, d.2 as nat) == grid.extent(),
                nx == span(d.0) - 1 && ny == span(d.1) - 1 && nz == span(d.2) - 1,
            nx >= 0 && ny >= 0 && nz >= 0,
                0 <= z < nz,
                0 <= y <= ny,
                faces_sound(*grid, faces@),
                forall|k: int|
                    0 <= k < faces@.len() ==> layer_before(
                        (#[trigger] faces@[k]).base,
                        I3(0, y, z),
                    ),
                forall|f: Face|
                    is_face(*grid, f) && layer_before(f.base, I3(0, y, z)) ==> listed(faces@, f),
            decreases ny - y,
        {
            let mut x: i16 = 0;
            while x < nx
                invariant
                            (d.0 as nat, d.1 as nat, d.2 as nat) == grid.extent(),
                    nx == span(d.0) - 1 && ny == span(d.1) - 1 && nz == span(d.2) - 1,
            nx >= 0 && ny >= 0 && nz >= 0,
                    0 <= z < nz,
                    0 <= y < ny,
                    0 <= x <= nx,
                    faces_sound(*grid, faces@),
                    forall|k: int|
                        0 <= k < faces@.len() ==> layer_before(
                            (#[trigger] faces@[k]).base,
                            I3(x, y, z),
                        ),
                    forall|f: Face|
                        is_face(*grid, f) && layer_before(f.base, I3(x, y, z)) ==> listed(
                            faces@,
                            f,
                        ),
                decreases nx - x,
            {
                let v = I3(x, y, z);
                let ghost f0 = faces@;
                face_at(grid, v, Axis::X, &mut faces);
                let ghost f1 = faces@;
                face_at(grid, v, Axis::Y, &mut faces);
                let ghost f2 = faces@;
                face_at(grid, v, Axis::Z, &mut faces);
                proof {
                    assert forall|f: Face|
                        is_face(*grid, f) && layer_before(f.base, I3((x + 1) as i16, y, z)) implies listed(
                        faces@,
                        f,
                    ) by {
                        if layer_before(f.base, v) {
                            assert(listed(f0, f));
                            assert(listed(f1, f));
                            assert(listed(f2, f));
                        } else {
                            assert(f.base == v);
                            if f.axis == Axis::X {
                                assert(listed(f1, f));
                                assert(listed(f2, f));
                            } else if f.axis == Axis::Y {
                                assert(listed(f2, f));
                            }
                        }
                    }
                }
                x = x + 1;
            }
            y = y + 1;
        }
        z = z + 1;
    }
    faces
}

/// The lattice point of corner `i` of a face, for `i` from 0 to 3. Corner 0
/// lies at the far end of the base voxel along the face's axis; corners 1 and
/// 2 lie one step from it along the two other axes, corner 3 along both.
pub open spec fn corner(f: Face, i: int) -> (int, int, int) {
    let a: int = if i == 1 || i == 3 {
        1
    } else {
        0
    };
    let b: int = if i == 2 || i == 3 {
        1
    } else {
        0
    };
    match f.axis {
        Axis::X => (f.base.0 + 1, f.base.1 + a, f.base.2 + b),
        Axis::Y => (f.base.0 + b, f.base.1 + 1, f.base.2 + a),
        Axis::Z => (f.base.0 + a, f.base.1 + b, f.base.2 + 1),
    }
}

/// The corner of the quad that stands at place `j` of its two triangles:
/// corners 0, 1, 2 and corners 2, 1, 3.
pub open spec fn triangle_corner(j: int) -> int {
    if j == 0 {
        0
    } else if j == 1 || j == 4 {
        1
    } else if j == 2 || j == 3 {
        2
    } else {
        3
    }
}

/// `m` is the mesh of `faces`: four corners and two triangles per face, in
/// the order of the faces.
pub open spec fn is_mesh_of(m: Mesh, faces: Seq<Face>) -> bool {
    &&& m.vertices@.len() == 4 * faces.len()
    &&& m.indices@.len() == 6 * faces.len()
    &&& forall|k: int, i: int|
        0 <= k < faces.len() && 0 <= i < 4 ==> {
            let v = #[trigger] m.vertices@[4 * k + i];
            &&& (v.pos.0 as int, v.pos.1 as int, v.pos.2 as int) == corner(faces[k], i)
            &&& v.bnd_type == faces[k].kind
        }
    &&& forall|k: int, j: int|
        0 <= k < faces.len() && 0 <= j < 6 ==> #[trigger] m.indices@[6 * k + j] == 4 * k
            + triangle_corner(j)
}

/// Corner `i` of face `f`.
fn corner_at(f: Face, i: u8) -> (v: BlockVertex)
    requires
        i < 4,
    ensures
        (v.pos.0 as int, v.pos.1 as int, v.pos.2 as int) == corner(f, i as int),
        v.bnd_type == f.kind,
{
    let a: i32 = if i == 1 || i == 3 {
        1
    } else {
        0
    };
    let b: i32 = if i == 2 || i == 3 {
        1
    } else {
        0
    };
    let x = f.base.0 as i32;
    let y = f.base.1 as i32;
    let z = f.base.2 as i32;
    let pos = match f.axis {
        Axis::X => (x + 1, y + a, z + b),
        Axis::Y => (x + b, y + 1, z + a),
        Axis::Z => (x + a, y + b, z + 1),
    };
    BlockVertex { pos, bnd_type: f.kind }
}

/// Turns faces into quads: four corners each, and two triangles over them.
/// `None` where the corners are too many to be numbered in 32 bits.
pub fn quads(faces: &Vec<Face>) -> (r: Option<Mesh>)
    ensures
        r is Some <==> 4 * faces@.len() <= 0x1_0000_0000,
        r matches Some(m) ==> is_mesh_of(m, faces@),
{
    let n = faces.len();
    if n > 0x4000_0000 {
        return None;
    }
    let mut vertices: Vec<BlockVertex> = Vec::new();
    let mut indices: Vec<u32> = Vec::new();
    let mut k: usize = 0;
    while k < n
        invariant
            k <= n,
            n == faces@.len(),
            n <= 0x4000_0000,
            vertices@.len() == 4 * k,
            indices@.len() == 6 * k,
            forall|h: int, i: int|
                0 <= h < k && 0 <= i < 4 ==> {
                    let v = #[trigger] vertices@[4 * h + i];
                    &&& (v.pos.0 as int, v.pos.1 as int, v.pos.2 as int) == corner(faces@[h], i)
                    &&& v.bnd_type == faces@[h].kind
                },
            forall|h: int, j: int|
                0 <= h < k && 0 <= j < 6 ==> #[trigger] indices@[6 * h + j] == 4 * h
                    + triangle_corner(j),
        decreases n - k,
    {
        let f = faces[k];
        let base: u32 = (4 * k) as u32;
        let ghost v0 = vertices@;
        let ghost i0 = indices@;
        vertices.push(corner_at(f, 0));
        vertices.push(corner_at(f, 1));
        vertices.push(corner_at(f, 2));
        vertices.push(corner_at(f, 3));
        indices.push(base);
        indices.push(base + 1);
        indices.push(base + 2);
        indices.push(base + 2);
        indices.push(base + 1);
        indices.push(base + 3);
        proof {
            assert forall|h: int, i: int| 0 <= h < k + 1 && 0 <= i < 4 implies ({
                let v = #[trigger] vertices@[4 * h + i];
                &&& (v.pos.0 as int, v.pos.1 as int, v.pos.2 as int) == corner(faces@[h], i)
                &&& v.bnd_type == faces@[h].kind
            }) by {
                if h < k {
                    assert(vertices@[4 * h + i] == v0[4 * h + i]);
                }
            }
            assert forall|h: int, j: int| 0 <= h < k + 1 && 0 <= j < 6 implies #[trigger] indices@[6
                * h + j] == 4 * h + triangle_corner(j) by {
                if h < k {
                    assert(indices@[6 * h + j] == i0[6 * h + j]);
                }
            }
        }
        k = k + 1;
    }
    Some(Mesh { vertices, indices })
}

} // verus!
