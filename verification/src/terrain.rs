//! Terrain: the kinds of block and the grid that holds one per voxel.
use vstd::prelude::*;
use crate::geometry::I3;

verus! {

/// The kind of terrain that fills one voxel.
#[derive(Clone, Copy, Debug, PartialEq, Eq, Structural)]
pub enum Block {
    /// Claims its voxel for good; blocks light.
    Bedrock,
    /// Pulls cells inside it towards the voxel's faces; blocks light.
    Soil,
    /// Passable; lets light through.
    Water,
    /// Passable; carries a weak flow.
    Air,
}

/// The block that a two-bit operand of an instruction stands for.
pub open spec fn block_of(sel: u8) -> Block {
    if sel == 0 {
        Block::Bedrock
    } else if sel == 1 {
        Block::Soil
    } else if sel == 2 {
        Block::Water
    } else {
        Block::Air
    }
}

/// The block that a two-bit operand of an instruction stands for.
pub fn block_for(sel: u8) -> (b: Block)
    ensures
        b == block_of(sel),
{
    if sel == 0 {
        Block::Bedrock
    } else if sel == 1 {
        Block::Soil
    } else if sel == 2 {
        Block::Water
    } else {
        Block::Air
    }
}

/// How many of `n` indexes along an axis are coordinates of an `I3`.
pub open spec fn span(n: usize) -> usize {
    if n > 0x8000 {
        0x8000
    } else {
        n
    }
}

/// How many of `n` indexes along an axis are coordinates of an `I3`.
pub fn span_of(n: usize) -> (m: usize)
    ensures
        m == span(n),
{
    if n > 0x8000 {
        0x8000
    } else {
        n
    }
}

/// How strongly a block shows at a boundary: Bedrock over Water over Soil over Air.
pub open spec fn strength(b: Block) -> u32 {
    match b {
        Block::Bedrock => 3,
        Block::Water => 2,
        Block::Soil => 1,
        Block::Air => 0,
    }
}

/// How strongly a block shows at a boundary.
fn strength_of(b: Block) -> (s: u32)
    ensures
        s == strength(b),
{
    match b {
        Block::Bedrock => 3,
        Block::Water => 2,
        Block::Soil => 1,
        Block::Air => 0,
    }
}

/// The kind of the boundary between two blocks: that of the stronger one.
pub fn encode_boundary_type(a: Block, b: Block) -> (kind: u32)
    ensures
        kind == if strength(a) >= strength(b) {
            strength(a)
        } else {
            strength(b)
        },
{
    let sa = strength_of(a);
    let sb = strength_of(b);
    if sa >= sb {
        sa
    } else {
        sb
    }
}

/// The terrain: one block per voxel of a box that starts at the origin.
/// The blocks are kept in an `ndarray::Array3`.
#[verifier::external_body]
pub struct Grid {
    cells: ndarray::Array3<Block>,
}

/// The element of the array at each index triple within its shape.
pub uninterp spec fn grid_blocks(g: Grid) -> Map<(int, int, int), Block>;

/// The lengths of the array's three axes.
pub uninterp spec fn grid_shape(g: Grid) -> (nat, nat, nat);

/// `Array3::from_elem` with the shape `(nx, ny, nz)`: an array of that shape
/// whose every element is `b`. The call panics when the element count
/// overflows `isize`, which the precondition rules out.
#[verifier::external_body]
pub(crate) fn array_from_elem(nx: usize, ny: usize, nz: usize, b: Block) -> (g: Grid)
    requires
        nx <= 0x7fff,
        ny <= 0x7fff,
        nz <= 0x7fff,
        nx * ny * nz <= isize::MAX,
    ensures
        grid_shape(g) == (nx as nat, ny as nat, nz as nat),
        forall|x: int, y: int, z: int|
            0 <= x < nx && 0 <= y < ny && 0 <= z < nz ==> #[trigger] grid_blocks(g)[(x, y, z)]
                == b,
{
    Grid { cells: ndarray::Array3::from_elem((nx, ny, nz), b) }
}

/// `ArrayBase::dim`: the lengths of the three axes.
#[verifier::external_body]
fn array_dim(g: &Grid) -> (d: (usize, usize, usize))
    ensures
        (d.0 as nat, d.1 as nat, d.2 as nat) == grid_shape(*g),
{
    g.cells.dim()
}

/// Indexing of the array by a triple within its shape: the element there.
/// Outside the shape the index panics, which the precondition rules out.
#[verifier::external_body]
fn array_index(g: &Grid, x: usize, y: usize, z: usize) -> (b: Block)
    requires
        x < grid_shape(*g).0,
        y < grid_shape(*g).1,
        z < grid_shape(*g).2,
    ensures
        b == grid_blocks(*g)[(x as int, y as int, z as int)],
{
    g.cells[(x, y, z)]
}

/// Assignment through the array's index by a triple within its shape: that
/// element becomes `b`, every other element and the shape stay.
#[verifier::external_body]
fn array_store(g: &mut Grid, x: usize, y: usize, z: usize, b: Block)
    requires
        x < grid_shape(*old(g)).0,
        y < grid_shape(*old(g)).1,
        z < grid_shape(*old(g)).2,
    ensures
        grid_shape(*final(g)) == grid_shape(*old(g)),
        grid_blocks(*final(g)) == grid_blocks(*old(g)).insert((x as int, y as int, z as int), b),
{
    g.cells[(x, y, z)] = b;
}

/// `Clone::clone` of the array: an array of the same shape with the same elements.
#[verifier::external_body]
fn array_clone(g: &Grid) -> (copy: Grid)
    ensures
        grid_shape(copy) == grid_shape(*g),
        grid_blocks(copy) == grid_blocks(*g),
{
    Grid { cells: g.cells.clone() }
}

impl Grid {
    /// The grid's extent along x, y and z.
    pub open spec fn extent(&self) -> (nat, nat, nat) {
        grid_shape(*self)
    }

    /// Every voxel of the grid has coordinates that fit an `I3`.
    pub open spec fn wf(&self) -> bool {
        &&& self.extent().0 <= 0x7fff
        &&& self.extent().1 <= 0x7fff
        &&& self.extent().2 <= 0x7fff
    }

    /// `v` is a voxel of the grid.
    pub open spec fn has(&self, v: I3) -> bool {
        &&& 0 <= v.0 < self.extent().0
        &&& 0 <= v.1 < self.extent().1
        &&& 0 <= v.2 < self.extent().2
    }

    /// The block at voxel `v` of the grid.
    pub open spec fn block(&self, v: I3) -> Block {
        grid_blocks(*self)[(v.0 as int, v.1 as int, v.2 as int)]
    }

    /// The voxels of the grid that hold Bedrock.
    pub open spec fn bedrock(&self) -> Set<I3> {
        Set::new(|v: I3| self.has(v) && self.block(v) == Block::Bedrock)
    }

    /// A grid of `nx` by `ny` by `nz` voxels, each holding `b`; `None` when an
    /// extent does not fit a voxel coordinate or the voxel count does not fit
    /// the machine.
    pub fn filled(nx: usize, ny: usize, nz: usize, b: Block) -> (r: Option<Grid>)
        ensures
            r is Some <==> nx <= 0x7fff && ny <= 0x7fff && nz <= 0x7fff && nx * ny * nz
                <= isize::MAX,
            r matches Some(g) ==> {
                &&& g.wf()
                &&& g.extent() == (nx as nat, ny as nat, nz as nat)
                &&& forall|v: I3| g.has(v) ==> #[trigger] g.block(v) == b
            },
    {
        if nx > 0x7fff || ny > 0x7fff || nz > 0x7fff {
            return None;
        }
        assert(nx * ny <= 0x7fff * 0x7fff) by (nonlinear_arith)
            requires
                nx <= 0x7fff,
                ny <= 0x7fff,
        ;
        let area: u64 = nx as u64 * ny as u64;
        assert(area * nz <= 0x7fff * 0x7fff * 0x7fff) by (nonlinear_arith)
            requires
                area <= 0x7fff * 0x7fff,
                nz <= 0x7fff,
        ;
        let count: u64 = area * nz as u64;
        assert(count == nx * ny * nz);
        if count > isize::MAX as u64 {
            return None;
        }
        Some(array_from_elem(nx, ny, nz, b))
    }

    /// A grid of the same extent that holds the same blocks.
    pub fn duplicate(&self) -> (copy: Grid)
        ensures
            copy.extent() == self.extent(),
            forall|v: I3| #[trigger] copy.block(v) == self.block(v),
    {
        array_clone(self)
    }

    /// The grid's extent along x, y and z.
    pub fn size(&self) -> (d: (usize, usize, usize))
        ensures
            (d.0 as nat, d.1 as nat, d.2 as nat) == self.extent(),
    {
        array_dim(self)
    }

    /// Whether `v` is a voxel of the grid.
    pub fn contains(&self, v: I3) -> (r: bool)
        ensures
            r == self.has(v),
    {
        let d = array_dim(self);
        v.0 >= 0 && v.1 >= 0 && v.2 >= 0 && (v.0 as usize) < d.0 && (v.1 as usize) < d.1 && (
        v.2 as usize) < d.2
    }

    /// The block at voxel `v` of the grid.
    pub fn get(&self, v: I3) -> (b: Block)
        requires
            self.has(v),
        ensures
            b == self.block(v),
    {
        array_index(self, v.0 as usize, v.1 as usize, v.2 as usize)
    }

    /// The block at `v`, or `None` where `v` lies outside the grid.
    pub fn block_at(&self, v: I3) -> (r: Option<Block>)
        ensures
            r == if self.has(v) {
                Some(self.block(v))
            } else {
                None
            },
    {
        if self.contains(v) {
            Some(self.get(v))
        } else {
            None
        }
    }

    /// Puts `b` at voxel `v`. Returns whether `v` is a voxel of the grid;
    /// where it is not, the grid stays as it was.
    pub fn set(&mut self, v: I3, b: Block) -> (done: bool)
        ensures
            done == old(self).has(v),
            final(self).extent() == old(self).extent(),
            done ==> final(self).block(v) == b,
            forall|w: I3| w != v || !done ==> final(self).block(w) == old(self).block(w),
    {
        if self.contains(v) {
            array_store(self, v.0 as usize, v.1 as usize, v.2 as usize, b);
            true
        } else {
            false
        }
    }

    /// `v` is a voxel of the column at `(x, y)` whose height is `z0` at
    /// least and `z1` at most.
    pub open spec fn in_column(x: i16, y: i16, z0: int, z1: int, v: I3) -> bool {
        v.0 == x && v.1 == y && z0 <= v.2 <= z1
    }

    /// The height of the topmost voxel below height `n` of the column at
    /// `(x, y)` that holds anything but Air; 0 where there is none above the
    /// ground.
    pub open spec fn top(&self, x: i16, y: i16, n: int) -> int
        decreases n,
    {
        if n <= 1 {
            0
        } else if self.block(I3(x, y, (n - 1) as i16)) != Block::Air {
            n - 1
        } else {
            self.top(x, y, n - 1)
        }
    }

    /// Puts `b` into the voxels of the column at `(x, y)` from height `z0`
    /// up to and including height `z1`.
    pub fn fill_column(&mut self, x: i16, y: i16, z0: i16, z1: i16, b: Block)
        requires
            old(self).has(I3(x, y, z0)),
            old(self).has(I3(x, y, z1)),
        ensures
            final(self).extent() == old(self).extent(),
            forall|v: I3|
                #[trigger] final(self).block(v) == if Self::in_column(
                    x,
                    y,
                    z0 as int,
                    z1 as int,
                    v,
                ) {
                    b
                } else {
                    old(self).block(v)
                },
    {
        if z0 > z1 {
            return ;
        }
        let mut z: i32 = z0 as i32;
        while z <= z1 as i32
            invariant
                self.extent() == old(self).extent(),
                old(self).has(I3(x, y, z0)),
                old(self).has(I3(x, y, z1)),
                z0 <= z <= z1 + 1,
                forall|v: I3|
                    #[trigger] self.block(v) == if Self::in_column(
                        x,
                        y,
                        z0 as int,
                        z - 1,
                        v,
                    ) {
                        b
                    } else {
                        old(self).block(v)
                    },
            decreases z1 + 1 - z,
        {
            let ghost before = *self;
            let done = self.set(I3(x, y, z as i16), b);
            assert forall|v: I3|
                #[trigger] self.block(v) == if Self::in_column(x, y, z0 as int, z as int, v) {
                    b
                } else {
                    old(self).block(v)
                } by {
                if v != I3(x, y, z as i16) {
                    assert(self.block(v) == before.block(v));
                }
            }
            z = z + 1;
        }
    }

    /// The height of the topmost voxel of the column at `(x, y)` that holds
    /// anything but Air; 0 where there is none above the ground.
    pub fn column_top(&self, x: i16, y: i16) -> (z: i16)
        requires
            self.has(I3(x, y, 0)),
        ensures
            z == self.top(x, y, span(self.extent().2 as usize) as int),
            self.has(I3(x, y, z)),
    {
        let d = self.size();
        let n = span_of(d.2);
        let mut z: i16 = (n - 1) as i16;
        while z > 0
            invariant
                0 <= z < n,
                n == span(d.2),
                (d.0 as nat, d.1 as nat, d.2 as nat) == self.extent(),
                self.has(I3(x, y, 0)),
                self.top(x, y, n as int) == self.top(x, y, z + 1),
            decreases z,
        {
            if self.get(I3(x, y, z)) != Block::Air {
                return z;
            }
            z = z - 1;
        }
        z
    }

    /// Grows the column at `(x, y)` by `by` voxels: what its topmost voxel
    /// other than Air holds is put into that voxel and the `by - 1` voxels
    /// above it, as far as the grid goes. Then the ground becomes Bedrock.
    pub fn raise_column(&mut self, x: i16, y: i16, by: usize)
        requires
            old(self).has(I3(x, y, 0)),
        ensures
            final(self).extent() == old(self).extent(),
            forall|v: I3|
                #[trigger] final(self).block(v) == {
                    let t = old(self).top(x, y, span(old(self).extent().2 as usize) as int);
                    if v == I3(x, y, 0) {
                        Block::Bedrock
                    } else if v.0 == x && v.1 == y && t <= v.2 < t + by && old(self).has(v) {
                        old(self).block(I3(x, y, t as i16))
                    } else {
                        old(self).block(v)
                    }
                },
    {
        let d = self.size();
        let n = span_of(d.2);
        let t = self.column_top(x, y);
        let b = self.get(I3(x, y, t));
        if by > 0 {
            let last: i16 = if by - 1 >= n - 1 - t as usize {
                (n - 1) as i16
            } else {
                (t as usize + (by - 1)) as i16
            };
            self.fill_column(x, y, t, last, b);
        }
        let ghost filled = *self;
        let done = self.set(I3(x, y, 0), Block::Bedrock);
        assert forall|v: I3|
            #[trigger] self.block(v) == {
                let t = old(self).top(x, y, span(old(self).extent().2 as usize) as int);
                if v == I3(x, y, 0) {
                    Block::Bedrock
                } else if v.0 == x && v.1 == y && t <= v.2 < t + by && old(self).has(v) {
                    old(self).block(I3(x, y, t as i16))
                } else {
                    old(self).block(v)
                }
            } by {
            if v != I3(x, y, 0) {
                assert(self.block(v) == filled.block(v));
            }
        }
    }

    /// Puts `b` into every voxel of the ground: the voxels at height 0.
    pub fn lay_floor(&mut self, b: Block)
        ensures
            final(self).extent() == old(self).extent(),
            forall|v: I3|
                #[trigger] final(self).block(v) == if old(self).has(v) && v.2 == 0 {
                    b
                } else {
                    old(self).block(v)
                },
    {
        let d = self.size();
        if d.2 == 0 {
            return ;
        }
        let nx = span_of(d.0);
        let ny = span_of(d.1);
        let mut x: usize = 0;
        while x < nx
            invariant
                self.extent() == old(self).extent(),
                (d.0 as nat, d.1 as nat, d.2 as nat) == self.extent(),
                d.2 > 0,
                nx == span(d.0) && ny == span(d.1),
                x <= nx,
                forall|v: I3|
                    #[trigger] self.block(v) == if old(self).has(v) && v.2 == 0 && v.0 < x {
                        b
                    } else {
                        old(self).block(v)
                    },
            decreases nx - x,
        {
            let mut y: usize = 0;
            while y < ny
                invariant
                    self.extent() == old(self).extent(),
                    (d.0 as nat, d.1 as nat, d.2 as nat) == self.extent(),
                    d.2 > 0,
                    nx == span(d.0) && ny == span(d.1),
                    x < nx,
                    y <= ny,
                    forall|v: I3|
                        #[trigger] self.block(v) == if old(self).has(v) && v.2 == 0 && (v.0 < x
                            || (v.0 == x && v.1 < y)) {
                            b
                        } else {
                            old(self).block(v)
                        },
                decreases ny - y,
            {
                let ghost before = *self;
                let done = self.set(I3(x as i16, y as i16, 0), b);
                assert forall|v: I3|
                    #[trigger] self.block(v) == if old(self).has(v) && v.2 == 0 && (v.0 < x || (v.0
                        == x && v.1 < y + 1)) {
                        b
                    } else {
                        old(self).block(v)
                    } by {
                    if v != I3(x as i16, y as i16, 0) {
                        assert(self.block(v) == before.block(v));
                    }
                }
                y = y + 1;
            }
            x = x + 1;
        }
    }
}

} // verus!
