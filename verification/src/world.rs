//! The world: terrain and cells, the issue of ids, the check of the
//! invariants, and the tick.
use vstd::prelude::*;
use std::collections::HashSet;
use crate::cell::{Cell, CellView, TAG_REGISTER, blank_bank};
use crate::geometry::I3;
use crate::occupancy::{Occupancy, TagIndex};
use crate::terrain::{Block, Grid, array_from_elem, span, span_of};
use crate::tick::{
    Outcome, Pass, all_in_grid, births, ids_below, ids_distinct, lemma_newborn_count,
    lemma_newborns_len, lemma_tick_in_grid, lemma_tick_keeps_order, newborns,
    one_per_voxel, outcome_views, pass, standing, survivors, table_after, tagging, take_turn,
    views,
};
use crate::vm::StateDelta;

verus! {

broadcast use vstd::std_specs::hash::group_hash_axioms;

/// The horizontal extent of a world of the usual size, along x and along y.
pub const HSIZE: usize = 200;

/// The vertical extent of a world of the usual size.
pub const VSIZE: usize = 100;

/// The world: terrain, the cells that live in it, and the count of ticks.
pub struct World {
    /// The number of ticks so far.
    pub steps: u64,
    next_id: u64,
    /// The table of live cells.
    pub cells: Vec<Cell>,
    /// The terrain.
    pub blocks: Grid,
    bedrocks: Occupancy,
    hsize: usize,
    vsize: usize,
}

/// The first invariant that a world breaks.
#[derive(Clone, Copy, Debug, PartialEq, Eq, Structural)]
pub enum Violation {
    /// The terrain does not have the extent the world was made with.
    GridShape,
    /// A cell has an id that was never issued.
    UnissuedId,
    /// Two cells have the same id.
    DuplicateId,
    /// A cell stands outside the terrain.
    OutOfGrid,
    /// A cell stands in Bedrock, or two cells stand in the same voxel.
    SharedVoxel,
}

impl World {
    /// The table of live cells.
    pub closed spec fn table(&self) -> Seq<Cell> {
        self.cells@
    }

    /// The terrain.
    pub closed spec fn terrain(&self) -> Grid {
        self.blocks
    }

    /// The number of ticks so far.
    pub closed spec fn ticks(&self) -> u64 {
        self.steps
    }

    /// The id that will be issued next. Every id below it has been issued.
    pub closed spec fn issued(&self) -> u64 {
        self.next_id
    }

    /// The voxels that the world has on record as Bedrock.
    pub closed spec fn bedrock_index(&self) -> Set<I3> {
        self.bedrocks@
    }

    /// The extent the world was made with: horizontal, then vertical.
    pub closed spec fn config(&self) -> (usize, usize) {
        (self.hsize, self.vsize)
    }

    /// The terrain has the extent the world was made with, and every voxel of
    /// it has coordinates that fit an `I3`.
    pub open spec fn shaped(&self) -> bool {
        &&& self.config().0 <= 0x7fff
        &&& self.config().1 <= 0x7fff
        &&& self.terrain().extent() == (
            self.config().0 as nat,
            self.config().0 as nat,
            self.config().1 as nat,
        )
    }

    /// The record of Bedrock voxels agrees with the terrain.
    pub open spec fn indexed(&self) -> bool {
        self.bedrock_index() == self.terrain().bedrock()
    }

    /// Every cell's id has been issued.
    pub open spec fn ids_issued(&self) -> bool {
        ids_below(views(self.table()), self.issued() as int)
    }

    /// No two cells have the same id.
    pub open spec fn ids_unique(&self) -> bool {
        ids_distinct(views(self.table()))
    }

    /// Every cell stands in a voxel of the terrain.
    pub open spec fn in_grid(&self) -> bool {
        all_in_grid(views(self.table()), self.terrain())
    }

    /// No cell stands in Bedrock and no two cells stand in the same voxel.
    pub open spec fn exclusive(&self) -> bool {
        one_per_voxel(views(self.table()), self.terrain().bedrock())
    }

    /// The first invariant that the world breaks, in the order of the
    /// variants of `Violation`, or `Ok` where it breaks none.
    pub open spec fn verdict(&self) -> Result<(), Violation> {
        if !self.shaped() {
            Err(Violation::GridShape)
        } else if !self.ids_issued() {
            Err(Violation::UnissuedId)
        } else if !self.ids_unique() {
            Err(Violation::DuplicateId)
        } else if !self.in_grid() {
            Err(Violation::OutOfGrid)
        } else if !self.exclusive() {
            Err(Violation::SharedVoxel)
        } else {
            Ok(())
        }
    }

    /// The world keeps all its invariants.
    pub open spec fn valid(&self) -> bool {
        &&& self.shaped()
        &&& self.ids_issued()
        &&& self.ids_unique()
        &&& self.in_grid()
        &&& self.exclusive()
    }

    /// A world of `hsize` by `hsize` by `vsize` voxels of Air, without cells;
    /// `None` when an extent does not fit a voxel coordinate or the voxel
    /// count does not fit the machine.
    pub fn new(hsize: usize, vsize: usize) -> (r: Option<World>)
        ensures
            r is Some <==> hsize <= 0x7fff && vsize <= 0x7fff && hsize * hsize * vsize
                <= isize::MAX,
            r matches Some(w) ==> {
                &&& w.config() == (hsize, vsize)
                &&& w.ticks() == 0
                &&& w.issued() == 0
                &&& w.table().len() == 0
                &&& forall|v: I3|
                    w.terrain().has(v) ==> #[trigger] w.terrain().block(v) == Block::Air
                &&& w.indexed()
                &&& w.valid()
            },
    {
        match Grid::filled(hsize, hsize, vsize, Block::Air) {
            Some(blocks) => {
                let w = World {
                    steps: 0,
                    next_id: 0,
                    cells: Vec::new(),
                    blocks,
                    bedrocks: Occupancy::new(),
                    hsize,
                    vsize,
                };
                assert(w.bedrock_index() =~= w.terrain().bedrock());
                Some(w)
            },
            None => None,
        }
    }

    /// The id that will be issued next.
    pub fn next_id(&self) -> (id: u64)
        ensures
            id == self.issued(),
    {
        self.next_id
    }

    /// The extent the world was made with: horizontal, then vertical.
    pub fn size(&self) -> (s: (usize, usize))
        ensures
            s == self.config(),
    {
        (self.hsize, self.vsize)
    }

    /// Puts every Bedrock voxel of the terrain on record, and nothing else.
    /// To be called after the terrain has been changed.
    pub fn init(&mut self)
        ensures
            final(self).indexed(),
            final(self).terrain() == old(self).terrain(),
            final(self).table() == old(self).table(),
            final(self).ticks() == old(self).ticks(),
            final(self).issued() == old(self).issued(),
            final(self).config() == old(self).config(),
    {
        let d = self.blocks.size();
        let nx = span_of(d.0);
        let ny = span_of(d.1);
        let nz = span_of(d.2);
        let mut index = Occupancy::new();
        let mut x: usize = 0;
        while x < nx
            invariant
                (d.0 as nat, d.1 as nat, d.2 as nat) == self.blocks.extent(),
                nx == span(d.0) && ny == span(d.1) && nz
                    == span(d.2),
                x <= nx,
                forall|v: I3|
                    index@.contains(v) <==> self.blocks.bedrock().contains(v) && v.0 < x,
            decreases nx - x,
        {
            let mut y: usize = 0;
            while y < ny
                invariant
                    (d.0 as nat, d.1 as nat, d.2 as nat) == self.blocks.extent(),
                    nx == span(d.0) && ny == span(d.1) && nz
                        == span(d.2),
                    x < nx,
                    y <= ny,
                    forall|v: I3|
                        index@.contains(v) <==> self.blocks.bedrock().contains(v) && (v.0 < x || (
                        v.0 == x && v.1 < y)),
                decreases ny - y,
            {
                let mut z: usize = 0;
                while z < nz
                    invariant
                        (d.0 as nat, d.1 as nat, d.2 as nat) == self.blocks.extent(),
                        nx == span(d.0) && ny == span(d.1) && nz
                            == span(d.2),
                        x < nx,
                        y < ny,
                        z <= nz,
                        forall|v: I3|
                            index@.contains(v) <==> self.blocks.bedrock().contains(v) && (v.0 < x
                                || (v.0 == x && (v.1 < y || (v.1 == y && v.2 < z)))),
                    decreases nz - z,
                {
                    let v = I3(x as i16, y as i16, z as i16);
                    if self.blocks.get(v) == Block::Bedrock {
                        index.insert(v);
                    }
                    z = z + 1;
                }
                y = y + 1;
            }
            x = x + 1;
        }
        assert(index@ =~= self.blocks.bedrock());
        self.bedrocks = index;
    }

    /// Issues a fresh id: the ids come out in strictly increasing order, so
    /// none comes out twice.
    pub fn issue_id(&mut self) -> (id: u64)
        requires
            old(self).issued() < u64::MAX,
        ensures
            id == old(self).issued(),
            final(self).issued() == id + 1,
            final(self).terrain() == old(self).terrain(),
            final(self).table() == old(self).table(),
            final(self).ticks() == old(self).ticks(),
            final(self).bedrock_index() == old(self).bedrock_index(),
            final(self).config() == old(self).config(),
    {
        let id = self.next_id;
        self.next_id = self.next_id + 1;
        id
    }

    /// Puts a new cell into voxel `pi`, with a fresh id, full energy, the
    /// given first bank and everything else zero. Returns the id. Whether
    /// the voxel is free is the caller's to know; `validate` tells.
    pub fn spawn(&mut self, pi: I3, bank0: &[u8; 128]) -> (id: u64)
        requires
            old(self).issued() < u64::MAX,
        ensures
            id == old(self).issued(),
            final(self).issued() == id + 1,
            views(final(self).table()) == views(old(self).table()).push(
                CellView {
                    id,
                    pi,
                    epsilon: 0xff,
                    decay: 0,
                    prog: bank0@ + blank_bank(),
                    regs: Seq::new(4, |i: int| 0u8),
                    ip: 0,
                    ext: false,
                    result: false,
                },
            ),
            final(self).terrain() == old(self).terrain(),
            final(self).ticks() == old(self).ticks(),
            final(self).bedrock_index() == old(self).bedrock_index(),
            final(self).config() == old(self).config(),
    {
        let id = self.issue_id();
        let mut c = Cell::new(id, pi, 0xff);
        let mut k: usize = 0;
        while k < 128
            invariant
                k <= 128,
                c.id == id && c.pi == pi && c.epsilon == 0xff && c.decay == 0 && c.ip == 0
                    && !c.ext && !c.result,
                c.regs@ == Seq::new(4, |i: int| 0u8),
                forall|j: int| 0 <= j < k ==> c.prog@[j] == bank0@[j],
                forall|j: int| k <= j < 256 ==> c.prog@[j] == 0,
            decreases 128 - k,
        {
            c.prog[k] = bank0[k];
            k = k + 1;
        }
        assert(c.prog@ =~= bank0@ + blank_bank());
        let ghost before = self.cells@;
        self.cells.push(c);
        assert(views(self.cells@) =~= views(before).push(c@));
        id
    }

    /// Checks the world's invariants: that the terrain has the extent the
    /// world was made with, that every cell's id was issued and no two cells
    /// share one, that every cell stands in the terrain, and that no cell
    /// shares its voxel with Bedrock or with another cell. Returns the first
    /// invariant that is broken, in this order.
    pub fn validate(&self) -> (r: Result<(), Violation>)
        ensures
            r == self.verdict(),
            r is Ok <==> self.valid(),
    {
        let ghost cells = views(self.cells@);
        let n = self.cells.len();
        let d = self.blocks.size();
        if self.hsize > 0x7fff || self.vsize > 0x7fff || d.0 != self.hsize || d.1 != self.hsize
            || d.2 != self.vsize {
            return Err(Violation::GridShape);
        }
        let mut i: usize = 0;
        while i < n
            invariant
                i <= n,
                n == self.cells.len(),
                cells == views(self.cells@),
                self.shaped(),
                forall|j: int| 0 <= j < i ==> (#[trigger] cells[j]).id < self.next_id,
            decreases n - i,
        {
            if self.cells[i].id >= self.next_id {
                assert(cells[i as int].id >= self.next_id);
                return Err(Violation::UnissuedId);
            }
            i = i + 1;
        }
        assert(self.ids_issued());
        let mut ids: HashSet<u64> = HashSet::new();
        i = 0;
        while i < n
            invariant
                i <= n,
                n == self.cells.len(),
                cells == views(self.cells@),
                self.shaped(),
                self.ids_issued(),
                forall|j: int| 0 <= j < i ==> ids@.contains((#[trigger] cells[j]).id),
                forall|id: u64|
                    ids@.contains(id) ==> exists|j: int| 0 <= j < i && (#[trigger] cells[j]).id == id,
                forall|j: int, k: int|
                    0 <= j < k < i ==> (#[trigger] cells[j]).id != (#[trigger] cells[k]).id,
            decreases n - i,
        {
            let id = self.cells[i].id;
            assert(cells[i as int].id == id);
            if ids.contains(&id) {
                let ghost j = choose|j: int| 0 <= j < i && (#[trigger] cells[j]).id == id;
                assert(cells[j].id == cells[i as int].id);
                return Err(Violation::DuplicateId);
            }
            ids.insert(id);
            i = i + 1;
        }
        assert(self.ids_unique());
        i = 0;
        while i < n
            invariant
                i <= n,
                n == self.cells.len(),
                cells == views(self.cells@),
                self.shaped(),
                self.ids_issued(),
                self.ids_unique(),
                forall|j: int| 0 <= j < i ==> self.blocks.has((#[trigger] cells[j]).pi),
            decreases n - i,
        {
            if !self.blocks.contains(self.cells[i].pi) {
                assert(!self.blocks.has(cells[i as int].pi));
                return Err(Violation::OutOfGrid);
            }
            i = i + 1;
        }
        assert(self.in_grid());
        let mut claimed = Occupancy::new();
        i = 0;
        while i < n
            invariant
                i <= n,
                n == self.cells.len(),
                cells == views(self.cells@),
                self.shaped(),
                self.ids_issued(),
                self.ids_unique(),
                forall|j: int| 0 <= j < n ==> self.blocks.has((#[trigger] cells[j]).pi),
                forall|j: int| 0 <= j < i ==> claimed@.contains((#[trigger] cells[j]).pi),
                forall|v: I3|
                    claimed@.contains(v) ==> exists|j: int| 0 <= j < i && (#[trigger] cells[j]).pi == v,
                forall|j: int| 0 <= j < i ==> !self.blocks.bedrock().contains((#[trigger] cells[j]).pi),
                forall|j: int, k: int|
                    0 <= j < k < i ==> (#[trigger] cells[j]).pi != (#[trigger] cells[k]).pi,
            decreases n - i,
        {
            let pi = self.cells[i].pi;
            assert(cells[i as int].pi == pi);
            if self.blocks.get(pi) == Block::Bedrock {
                assert(self.blocks.bedrock().contains(cells[i as int].pi));
                return Err(Violation::SharedVoxel);
            }
            if claimed.contains(pi) {
                let ghost j = choose|j: int| 0 <= j < i && (#[trigger] cells[j]).pi == pi;
                assert(cells[j].pi == cells[i as int].pi);
                return Err(Violation::SharedVoxel);
            }
            claimed.insert(pi);
            i = i + 1;
        }
        Ok(())
    }

    /// Advances the world by one tick. Cell `i` of the table is headed for
    /// voxel `targets[i]`: the voxel that its position lies in once its
    /// velocity has been added to it.
    ///
    /// The cells take their turns in table order, each finding the claimed
    /// voxels and the tags as the cells before it have left them. Then the
    /// cells that have starved or left the terrain go, the cells that were
    /// split off join the end of the table with fresh ids, and the tick is
    /// counted. What an instruction asks for beyond that is reported and
    /// changes nothing. The report has one entry per cell of the table as it
    /// was, in table order.
    pub fn step(&mut self, targets: &Vec<I3>) -> (report: Vec<Outcome>)
        requires
            old(self).in_grid(),
            targets@.len() == old(self).table().len(),
            old(self).ticks() < u64::MAX,
            old(self).issued() + old(self).table().len() <= u64::MAX,
        ensures
            views(final(self).table()) == table_after(
                views(old(self).table()),
                old(self).terrain(),
                old(self).bedrock_index(),
                targets@,
                old(self).issued() as int,
            ),
            outcome_views(report@) == pass(
                views(old(self).table()),
                old(self).terrain(),
                old(self).bedrock_index(),
                targets@,
                old(self).table().len() as int,
            ).outcomes,
            final(self).issued() == old(self).issued() + births(
                views(old(self).table()),
                old(self).terrain(),
                old(self).bedrock_index(),
                targets@,
            ),
            final(self).ticks() == old(self).ticks() + 1,
            final(self).terrain() == old(self).terrain(),
            final(self).bedrock_index() == old(self).bedrock_index(),
            final(self).config() == old(self).config(),
            final(self).in_grid(),
            old(self).valid() && old(self).indexed() ==> final(self).valid(),
            old(self).indexed() ==> final(self).indexed(),
    {
        let n = self.cells.len();
        let ghost before = views(self.cells@);
        let ghost grid = self.blocks;
        let ghost bedrock = self.bedrocks@;
        let ghost first_id = self.next_id as int;
        let mut occupation = self.bedrocks.duplicate();
        let mut cell_tags = TagIndex::new();
        let mut i: usize = 0;
        assert(occupation@ =~= bedrock + standing(before, 0));
        while i < n
            invariant
                i <= n,
                n == self.cells.len(),
                before == views(self.cells@),
                occupation@ == bedrock + standing(before, i as int),
                cell_tags@ == tagging(before, i as int),
            decreases n - i,
        {
            let pi = self.cells[i].pi;
            let tag = self.cells[i].regs[TAG_REGISTER];
            let id = self.cells[i].id;
            occupation.insert(pi);
            cell_tags.insert(pi, tag, id);
            assert(before[i as int] == self.cells@[i as int]@);
            assert(occupation@ =~= bedrock + standing(before, i + 1));
            i = i + 1;
        }
        let mut report: Vec<Outcome> = Vec::new();
        i = 0;
        assert((Pass {
            done: views(self.cells@).subrange(0, 0),
            outcomes: outcome_views(report@),
            occupied: occupation@,
            tags: cell_tags@,
        }) =~= pass(before, grid, bedrock, targets@, 0));
        while i < n
            invariant
                i <= n,
                n == self.cells.len(),
                n == targets@.len(),
                n == before.len(),
                self.blocks == grid,
                self.bedrocks@ == bedrock,
                self.next_id == first_id,
                self.steps == old(self).steps,
                self.hsize == old(self).hsize,
                self.vsize == old(self).vsize,
                all_in_grid(before, grid),
                report@.len() == i,
                forall|j: int| i <= j < n ==> (#[trigger] self.cells@[j])@ == before[j],
                (Pass {
                    done: views(self.cells@).subrange(0, i as int),
                    outcomes: outcome_views(report@),
                    occupied: occupation@,
                    tags: cell_tags@,
                }) == pass(before, grid, bedrock, targets@, i as int),
            decreases n - i,
        {
            let ghost cells_before = self.cells@;
            let ghost report_before = report@;
            assert(grid.has(before[i as int].pi));
            let mut c = self.cells[i];
            let outcome = take_turn(&mut c, targets[i], &mut occupation, &self.blocks, &mut cell_tags);
            self.cells[i] = c;
            report.push(outcome);
            proof {
                assert(views(self.cells@).subrange(0, i + 1) =~= views(cells_before).subrange(
                    0,
                    i as int,
                ).push(c@));
                assert(outcome_views(report@) =~= outcome_views(report_before).push(outcome@));
            }
            i = i + 1;
        }
        let ghost p = pass(before, grid, bedrock, targets@, n as int);
        assert(views(self.cells@).subrange(0, n as int) =~= views(self.cells@));
        let mut table: Vec<Cell> = Vec::new();
        i = 0;
        assert(views(table@) =~= survivors(p, 0));
        while i < n
            invariant
                i <= n,
                n == self.cells.len(),
                n == report@.len(),
                p.done == views(self.cells@),
                p.outcomes == outcome_views(report@),
                views(table@) == survivors(p, i as int),
            decreases n - i,
        {
            let ghost table_before = table@;
            assert(p.outcomes[i as int] == report@[i as int]@);
            assert(p.done[i as int] == self.cells@[i as int]@);
            if report[i].kept {
                let c = self.cells[i];
                table.push(c);
                assert(views(table@) =~= views(table_before).push(c@));
            }
            i = i + 1;
        }
        i = 0;
        proof {
            lemma_newborns_len(p, n as int, first_id, 0);
            assert(views(table@) =~= survivors(p, n as int) + newborns(p, 0, first_id));
        }
        while i < n
            invariant
                i <= n,
                n == report@.len(),
                n == old(self).table().len(),
                p.outcomes == outcome_views(report@),
                first_id == old(self).issued(),
                first_id + n <= u64::MAX,
                self.next_id == first_id + newborns(p, i as int, first_id).len(),
                views(table@) == survivors(p, n as int) + newborns(p, i as int, first_id),
                self.blocks == grid,
                self.bedrocks@ == bedrock,
                self.steps == old(self).steps,
                self.hsize == old(self).hsize,
                self.vsize == old(self).vsize,
            decreases n - i,
        {
            let ghost table_before = table@;
            assert(p.outcomes[i as int] == report@[i as int]@);
            proof {
                lemma_newborn_count(p, i as int, first_id);
            }
            match report[i].delta {
                StateDelta::AddCell(newborn) => {
                    let mut child = newborn;
                    child.id = self.issue_id();
                    table.push(child);
                    assert(views(table@) =~= views(table_before).push(child@));
                    assert(views(table@) =~= survivors(p, n as int) + newborns(
                        p,
                        i + 1,
                        first_id,
                    ));
                },
                _ => {},
            }
            i = i + 1;
        }
        self.cells = table;
        self.steps = self.steps + 1;
        proof {
            lemma_newborns_len(p, n as int, first_id, 0);
            lemma_tick_in_grid(before, grid, bedrock, targets@, first_id);
            if old(self).valid() && old(self).indexed() {
                lemma_tick_keeps_order(before, grid, bedrock, targets@, first_id);
            }
        }
        report
    }
}

/// A world of the usual size, all Air, without cells.
pub fn empty_world() -> (w: World)
    ensures
        w.config() == (HSIZE, VSIZE),
        w.ticks() == 0,
        w.issued() == 0,
        w.table().len() == 0,
        forall|v: I3| w.terrain().has(v) ==> #[trigger] w.terrain().block(v) == Block::Air,
        w.indexed(),
        w.valid(),
{
    assert(HSIZE * HSIZE * VSIZE == 4_000_000) by (nonlinear_arith)
        requires
            HSIZE == 200,
            VSIZE == 100,
    ;
    let blocks = array_from_elem(HSIZE, HSIZE, VSIZE, Block::Air);
    let w = World {
        steps: 0,
        next_id: 0,
        cells: Vec::new(),
        blocks,
        bedrocks: Occupancy::new(),
        hsize: HSIZE,
        vsize: VSIZE,
    };
    assert(w.bedrock_index() =~= w.terrain().bedrock());
    w
}

} // verus!
