//! One tick as a pass over the table of cells: each cell's turn, what is
//! left of the table afterwards, and what a pass keeps true.
use vstd::prelude::*;
use crate::cell::{Cell, CellView};
use crate::exclusion::{Motion, at_rest, resolution, resolve};
use crate::geometry::I3;
use crate::isa::instr_of;
use crate::occupancy::{Occupancy, TagIndex};
use crate::scan::{Env, Probe, env_of, lemma_first_hit_found};
use crate::terrain::{Grid, block_of};
use crate::vm::{DeltaView, StateDelta, charge, fetch, step_code, tick};

verus! {

/// What one tick did to one cell of the table.
#[derive(Clone, Copy, Debug, PartialEq, Eq)]
pub struct Outcome {
    /// What the cell's instruction asked of the world.
    pub delta: StateDelta,
    /// How far the cell got on its way to the voxel it was headed for.
    pub motion: Motion,
    /// Whether the cell is still in the table: it has not starved and has not
    /// left the terrain.
    pub kept: bool,
}

/// An `Outcome` as a mathematical value.
#[verifier::ext_equal]
pub struct OutcomeView {
    pub delta: DeltaView,
    pub motion: Motion,
    pub kept: bool,
}

impl View for Outcome {
    type V = OutcomeView;

    open spec fn view(&self) -> OutcomeView {
        OutcomeView { delta: self.delta@, motion: self.motion, kept: self.kept }
    }
}

/// One cell's turn within a tick: the cell and the two indexes afterwards,
/// and the outcome to report.
#[verifier::ext_equal]
pub struct Turn {
    pub cell: CellView,
    pub outcome: OutcomeView,
    pub occupied: Set<I3>,
    pub tags: Map<I3, (u8, u64)>,
}

/// The claimed voxels once the cell's instruction has had its effect on them:
/// a new cell claims the voxel it was put into.
pub open spec fn after_delta(occupied: Set<I3>, d: DeltaView) -> Set<I3> {
    match d {
        DeltaView::AddCell(child) => occupied.insert(child.pi),
        _ => occupied,
    }
}

/// The turn of cell `c`, headed for voxel `target`. The cell runs its
/// instruction. A cell that starves gives up its voxel and its tag and does
/// not move. Any other cell moves as far towards `target` as the claimed
/// voxels let it, and takes its claim along.
pub open spec fn turn(c: CellView, target: I3, env: Env) -> Turn {
    let (c1, d) = tick(c, env);
    if d is KillSelf {
        Turn {
            cell: c1,
            outcome: OutcomeView { delta: d, motion: at_rest(c.pi), kept: false },
            occupied: env.occupied.remove(c.pi),
            tags: env.tags.remove(c.pi),
        }
    } else {
        let claimed = after_delta(env.occupied, d);
        let m = resolution(c.pi, target, claimed);
        Turn {
            cell: CellView { pi: m.pi, ..c1 },
            outcome: OutcomeView { delta: d, motion: m, kept: env.grid.has(m.pi) },
            occupied: if m.pi != c.pi {
                claimed.insert(m.pi).remove(c.pi)
            } else {
                claimed
            },
            tags: env.tags,
        }
    }
}

/// A tick leaves a cell's id and voxel alone, and a cell that it splits off
/// stands in a voxel of the terrain that nothing had claimed.
pub proof fn lemma_tick_frame(c: CellView, env: Env)
    ensures
        tick(c, env).0.id == c.id,
        tick(c, env).0.pi == c.pi,
        tick(c, env).1 matches DeltaView::AddCell(child) ==> env.grid.has(child.pi)
            && !env.occupied.contains(child.pi) && child.pi != c.pi,
{
    if c.epsilon != 0 {
        let c1 = charge(c);
        let i = instr_of(fetch(c1));
        lemma_first_hit_found(Probe::Vacant(block_of(i.dst)), env, c1.pi);
    }
}

/// Runs the turn of cell `c`, headed for voxel `target`, and brings the two
/// indexes up to date.
pub fn take_turn(
    c: &mut Cell,
    target: I3,
    occupation: &mut Occupancy,
    blocks: &Grid,
    cell_tags: &mut TagIndex,
) -> (outcome: Outcome)
    requires
        blocks.has(old(c).pi),
    ensures
        ({
            let t = turn(old(c)@, target, env_of(old(occupation), blocks, old(cell_tags)));
            &&& final(c)@ == t.cell
            &&& outcome@ == t.outcome
            &&& final(occupation)@ == t.occupied
            &&& final(cell_tags)@ == t.tags
        }),
{
    let pi = c.pi;
    proof {
        lemma_tick_frame(c@, env_of(occupation, blocks, cell_tags));
    }
    let delta = step_code(c, occupation, blocks, cell_tags);
    match delta {
        StateDelta::KillSelf => {
            occupation.remove(pi);
            cell_tags.remove(pi);
            return Outcome { delta, motion: Motion::rest(pi), kept: false };
        },
        StateDelta::AddCell(child) => {
            occupation.insert(child.pi);
        },
        _ => {},
    }
    let motion = resolve(pi, target, occupation);
    c.pi = motion.pi;
    if !(motion.pi.0 == pi.0 && motion.pi.1 == pi.1 && motion.pi.2 == pi.2) {
        occupation.insert(motion.pi);
        occupation.remove(pi);
    }
    Outcome { delta, motion, kept: blocks.contains(motion.pi) }
}


/// The views of the cells of a table.
pub open spec fn views(cells: Seq<Cell>) -> Seq<CellView> {
    cells.map_values(|c: Cell| c@)
}

/// The views of a list of outcomes.
pub open spec fn outcome_views(outcomes: Seq<Outcome>) -> Seq<OutcomeView> {
    outcomes.map_values(|o: Outcome| o@)
}

/// A tick's pass over the table, part of the way through: the cells that
/// have had their turn, what to report of each, and the two indexes as the
/// next cell will find them.
#[verifier::ext_equal]
pub struct Pass {
    pub done: Seq<CellView>,
    pub outcomes: Seq<OutcomeView>,
    pub occupied: Set<I3>,
    pub tags: Map<I3, (u8, u64)>,
}

/// The voxels in which the first `n` cells stand.
pub open spec fn standing(cells: Seq<CellView>, n: int) -> Set<I3> {
    Set::new(|v: I3| exists|i: int| 0 <= i < n && i < cells.len() && (#[trigger] cells[i]).pi == v)
}

/// The tag index of the first `n` cells: each cell's tag and id, under the
/// voxel it stands in.
pub open spec fn tagging(cells: Seq<CellView>, n: int) -> Map<I3, (u8, u64)>
    decreases n,
{
    if n <= 0 {
        Map::empty()
    } else {
        tagging(cells, n - 1).insert(cells[n - 1].pi, (cells[n - 1].tag(), cells[n - 1].id))
    }
}

/// The pass before the first turn: Bedrock and every cell claim their voxels,
/// and every cell is on file with its tag.
pub open spec fn pass_start(cells: Seq<CellView>, bedrock: Set<I3>) -> Pass {
    Pass {
        done: Seq::empty(),
        outcomes: Seq::empty(),
        occupied: bedrock + standing(cells, cells.len() as int),
        tags: tagging(cells, cells.len() as int),
    }
}

/// The pass after the first `n` cells have had their turns, in table order.
/// Cell `i` is headed for voxel `targets[i]`, and finds the indexes as the
/// cells before it have left them.
pub open spec fn pass(
    cells: Seq<CellView>,
    grid: Grid,
    bedrock: Set<I3>,
    targets: Seq<I3>,
    n: int,
) -> Pass
    decreases n,
{
    if n <= 0 {
        pass_start(cells, bedrock)
    } else {
        let p = pass(cells, grid, bedrock, targets, n - 1);
        let t = turn(
            cells[n - 1],
            targets[n - 1],
            Env { occupied: p.occupied, grid, tags: p.tags },
        );
        Pass {
            done: p.done.push(t.cell),
            outcomes: p.outcomes.push(t.outcome),
            occupied: t.occupied,
            tags: t.tags,
        }
    }
}

/// The cells among the first `n` that stay in the table, in table order.
pub open spec fn survivors(p: Pass, n: int) -> Seq<CellView>
    decreases n,
{
    if n <= 0 {
        Seq::empty()
    } else if p.outcomes[n - 1].kept {
        survivors(p, n - 1).push(p.done[n - 1])
    } else {
        survivors(p, n - 1)
    }
}

/// The cells that the first `n` cells split off, in table order of their
/// parents. They get the ids from `first_id` on, in that order.
pub open spec fn newborns(p: Pass, n: int, first_id: int) -> Seq<CellView>
    decreases n,
{
    if n <= 0 {
        Seq::empty()
    } else {
        let before = newborns(p, n - 1, first_id);
        match p.outcomes[n - 1].delta {
            DeltaView::AddCell(child) => before.push(
                CellView { id: (first_id + before.len()) as u64, ..child },
            ),
            _ => before,
        }
    }
}

/// The voxel that cell `j` of the table claims part of the way through a
/// pass: a cell that has starved claims none.
pub open spec fn cell_claim(cells: Seq<CellView>, p: Pass, j: int) -> Option<I3> {
    if 0 <= j < p.done.len() {
        if p.outcomes[j].delta is KillSelf {
            None
        } else {
            Some(p.done[j].pi)
        }
    } else if 0 <= j < cells.len() {
        Some(cells[j].pi)
    } else {
        None
    }
}

/// The voxel claimed by the cell that cell `j` of the table has split off,
/// if it has had its turn and has split.
pub open spec fn child_claim(p: Pass, j: int) -> Option<I3> {
    if 0 <= j < p.outcomes.len() {
        match p.outcomes[j].delta {
            DeltaView::AddCell(child) => Some(child.pi),
            _ => None,
        }
    } else {
        None
    }
}

/// A claim, if there is one, is on record and not in Bedrock.
pub open spec fn claim_sound(claim: Option<I3>, occupied: Set<I3>, bedrock: Set<I3>) -> bool {
    claim matches Some(v) ==> occupied.contains(v) && !bedrock.contains(v)
}

/// A claim, if there is one, is for a voxel of the terrain.
pub open spec fn claim_in_grid(claim: Option<I3>, grid: Grid) -> bool {
    claim matches Some(v) ==> grid.has(v)
}

/// What holds throughout a pass over a table that started out with one
/// entity per voxel: the voxels on record as claimed are those of Bedrock,
/// of the cells that have not starved and of the newborns; no cell or
/// newborn claims Bedrock, and no two of them claim the same voxel.
pub open spec fn pass_inv(
    cells: Seq<CellView>,
    grid: Grid,
    bedrock: Set<I3>,
    p: Pass,
    n: int,
) -> bool {
    &&& p.done.len() == n
    &&& p.outcomes.len() == n
    &&& bedrock.subset_of(p.occupied)
    &&& forall|j: int| claim_sound(#[trigger] cell_claim(cells, p, j), p.occupied, bedrock)
    &&& forall|j: int|
        claim_sound(#[trigger] child_claim(p, j), p.occupied, bedrock) && claim_in_grid(
            child_claim(p, j),
            grid,
        )
    &&& forall|j: int, k: int|
        j != k && cell_claim(cells, p, j) is Some ==> #[trigger] cell_claim(cells, p, j)
            != #[trigger] cell_claim(cells, p, k)
    &&& forall|j: int, k: int|
        j != k && child_claim(p, j) is Some ==> #[trigger] child_claim(p, j) != #[trigger] child_claim(
            p,
            k,
        )
    &&& forall|j: int, k: int|
        cell_claim(cells, p, j) is Some ==> #[trigger] cell_claim(cells, p, j)
            != #[trigger] child_claim(p, k)
    &&& forall|j: int| 0 <= j < n ==> (#[trigger] p.done[j]).id == cells[j].id
    &&& forall|j: int|
        0 <= j < n ==> (#[trigger] p.outcomes[j]).kept == (!(p.outcomes[j].delta is KillSelf)
            && grid.has(p.done[j].pi))
    &&& forall|v: I3| #[trigger] p.occupied.contains(v) ==> claimed_by_someone(cells, bedrock, p, v)
}

/// Voxel `v` is Bedrock, or a cell of the table or a newborn claims it.
pub open spec fn claimed_by_someone(
    cells: Seq<CellView>,
    bedrock: Set<I3>,
    p: Pass,
    v: I3,
) -> bool {
    ||| bedrock.contains(v)
    ||| exists|j: int| #[trigger] cell_claim(cells, p, j) == Some(v)
    ||| exists|j: int| #[trigger] child_claim(p, j) == Some(v)
}

/// A table has one entity per voxel: no cell stands in Bedrock and no two
/// cells stand in the same voxel.
pub open spec fn one_per_voxel(cells: Seq<CellView>, bedrock: Set<I3>) -> bool {
    &&& forall|i: int| 0 <= i < cells.len() ==> !bedrock.contains((#[trigger] cells[i]).pi)
    &&& forall|i: int, j: int|
        0 <= i < j < cells.len() ==> (#[trigger] cells[i]).pi != (#[trigger] cells[j]).pi
}

/// A pass keeps one entity per voxel at every turn.
pub proof fn lemma_pass_inv(
    cells: Seq<CellView>,
    grid: Grid,
    bedrock: Set<I3>,
    targets: Seq<I3>,
    n: int,
)
    requires
        0 <= n <= cells.len(),
        one_per_voxel(cells, bedrock),
    ensures
        pass_inv(cells, grid, bedrock, pass(cells, grid, bedrock, targets, n), n),
    decreases n,
{
    if n == 0 {
        let p = pass_start(cells, bedrock);
        assert forall|j: int|
            claim_sound(#[trigger] cell_claim(cells, p, j), p.occupied, bedrock) by {
            if 0 <= j < cells.len() {
                assert(standing(cells, cells.len() as int).contains(cells[j].pi));
            }
        }
        assert forall|v: I3| #[trigger] p.occupied.contains(v) implies claimed_by_someone(
            cells,
            bedrock,
            p,
            v,
        ) by {
            if !bedrock.contains(v) {
                let i = choose|i: int| 0 <= i < cells.len() && (#[trigger] cells[i]).pi == v;
                assert(cell_claim(cells, p, i) == Some(v));
            }
        }
    } else {
        lemma_pass_inv(cells, grid, bedrock, targets, n - 1);
        let p = pass(cells, grid, bedrock, targets, n - 1);
        let q = pass(cells, grid, bedrock, targets, n);
        let c = cells[n - 1];
        let env = Env { occupied: p.occupied, grid, tags: p.tags };
        let t = turn(c, targets[n - 1], env);
        lemma_tick_frame(c, env);
        let d = tick(c, env).1;
        assert(cell_claim(cells, p, n - 1) == Some(c.pi));
        assert forall|j: int| j != n - 1 implies #[trigger] cell_claim(cells, q, j) == cell_claim(
            cells,
            p,
            j,
        ) by {}
        assert forall|j: int| j != n - 1 implies #[trigger] child_claim(q, j) == child_claim(
            p,
            j,
        ) by {}
        assert(child_claim(p, n - 1) is None);
        if d is KillSelf {
            assert(cell_claim(cells, q, n - 1) is None);
            assert(child_claim(q, n - 1) is None);
            assert forall|j: int|
                claim_sound(#[trigger] cell_claim(cells, q, j), q.occupied, bedrock) by {
                assert(claim_sound(cell_claim(cells, p, j), p.occupied, bedrock));
                if j != n - 1 {
                    assert(cell_claim(cells, p, j) != cell_claim(cells, p, n - 1));
                }
            }
            assert forall|j: int|
                claim_sound(#[trigger] child_claim(q, j), q.occupied, bedrock) && claim_in_grid(
                    child_claim(q, j),
                    grid,
                ) by {
                assert(claim_sound(child_claim(p, j), p.occupied, bedrock));
                assert(claim_in_grid(child_claim(p, j), grid));
                if j != n - 1 {
                    assert(cell_claim(cells, p, n - 1) != child_claim(p, j));
                }
            }
        } else {
            let claimed = after_delta(p.occupied, d);
            let m = resolution(c.pi, targets[n - 1], claimed);
            crate::exclusion::lemma_resolution_exclusive(c.pi, targets[n - 1], claimed);
            assert(cell_claim(cells, q, n - 1) == Some(m.pi));
            assert(p.occupied.subset_of(claimed));
            assert forall|j: int|
                claim_sound(#[trigger] cell_claim(cells, q, j), q.occupied, bedrock) by {
                assert(claim_sound(cell_claim(cells, p, j), p.occupied, bedrock));
                if j != n - 1 {
                    assert(cell_claim(cells, p, j) != cell_claim(cells, p, n - 1));
                }
            }
            assert forall|j: int|
                claim_sound(#[trigger] child_claim(q, j), q.occupied, bedrock) && claim_in_grid(
                    child_claim(q, j),
                    grid,
                ) by {
                assert(claim_sound(child_claim(p, j), p.occupied, bedrock));
                assert(claim_in_grid(child_claim(p, j), grid));
                if j != n - 1 {
                    assert(cell_claim(cells, p, n - 1) != child_claim(p, j));
                }
            }
            assert forall|j: int, k: int|
                j != k && cell_claim(cells, q, j) is Some implies #[trigger] cell_claim(
                cells,
                q,
                j,
            ) != #[trigger] cell_claim(cells, q, k) by {
                if j != n - 1 && k != n - 1 {
                    assert(cell_claim(cells, p, j) != cell_claim(cells, p, k));
                } else if j == n - 1 {
                    assert(cell_claim(cells, p, n - 1) != cell_claim(cells, p, k));
                } else {
                    assert(cell_claim(cells, p, j) != cell_claim(cells, p, n - 1));
                }
            }
            assert forall|j: int, k: int|
                j != k && child_claim(q, j) is Some implies #[trigger] child_claim(q, j)
                != #[trigger] child_claim(q, k) by {
                if j != n - 1 && k != n - 1 {
                    assert(child_claim(p, j) != child_claim(p, k));
                }
            }
            assert forall|j: int, k: int| cell_claim(cells, q, j) is Some implies #[trigger] cell_claim(
                cells,
                q,
                j,
            ) != #[trigger] child_claim(q, k) by {
                if j != n - 1 && k != n - 1 {
                    assert(cell_claim(cells, p, j) != child_claim(p, k));
                } else if j == n - 1 && k != n - 1 {
                    assert(cell_claim(cells, p, n - 1) != child_claim(p, k));
                }
            }
        }
        assert forall|v: I3| #[trigger] q.occupied.contains(v) implies claimed_by_someone(
            cells,
            bedrock,
            q,
            v,
        ) by {
            if cell_claim(cells, q, n - 1) == Some(v) || child_claim(q, n - 1) == Some(v) {
            } else {
                assert(p.occupied.contains(v));
                assert(claimed_by_someone(cells, bedrock, p, v));
                if !bedrock.contains(v) {
                    if exists|j: int| #[trigger] cell_claim(cells, p, j) == Some(v) {
                        let j = choose|j: int| #[trigger] cell_claim(cells, p, j) == Some(v);
                        assert(j != n - 1);
                        assert(cell_claim(cells, q, j) == Some(v));
                    } else {
                        let j = choose|j: int| #[trigger] child_claim(p, j) == Some(v);
                        assert(j != n - 1);
                        assert(child_claim(q, j) == Some(v));
                    }
                }
            }
        }
        assert(pass_inv(cells, grid, bedrock, q, n));
    }
}

/// Where no two cells stand in the same voxel, the tag index files every
/// cell's tag and id under the voxel it stands in, and nothing else.
pub proof fn lemma_tagging(cells: Seq<CellView>, n: int)
    requires
        0 <= n <= cells.len(),
        forall|i: int, j: int|
            0 <= i < j < cells.len() ==> (#[trigger] cells[i]).pi != (#[trigger] cells[j]).pi,
    ensures
        tagging(cells, n).dom() =~= standing(cells, n),
        forall|i: int|
            0 <= i < n ==> tagging(cells, n)[(#[trigger] cells[i]).pi] == (cells[i].tag(), cells[i].id),
    decreases n,
{
    if n > 0 {
        lemma_tagging(cells, n - 1);
        assert forall|v: I3| tagging(cells, n).dom().contains(v) == standing(cells, n).contains(
            v,
        ) by {
            if v == cells[n - 1].pi {
                assert(standing(cells, n).contains(v));
            } else if standing(cells, n).contains(v) {
                let i = choose|i: int| 0 <= i < n && i < cells.len() && (#[trigger] cells[i]).pi == v;
                assert(standing(cells, n - 1).contains(v));
            } else if standing(cells, n - 1).contains(v) {
                let i = choose|i: int|
                    0 <= i < n - 1 && i < cells.len() && (#[trigger] cells[i]).pi == v;
                assert(standing(cells, n).contains(v));
            }
        }
    }
}


/// Every cell's id is below `bound`.
pub open spec fn ids_below(cells: Seq<CellView>, bound: int) -> bool {
    forall|i: int| 0 <= i < cells.len() ==> (#[trigger] cells[i]).id < bound
}

/// No two cells have the same id.
pub open spec fn ids_distinct(cells: Seq<CellView>) -> bool {
    forall|i: int, j: int|
        0 <= i < j < cells.len() ==> (#[trigger] cells[i]).id != (#[trigger] cells[j]).id
}

/// Every cell stands in a voxel of the terrain.
pub open spec fn all_in_grid(cells: Seq<CellView>, grid: Grid) -> bool {
    forall|i: int| 0 <= i < cells.len() ==> grid.has((#[trigger] cells[i]).pi)
}

/// The table index of survivor `k` among the first `n` cells.
pub open spec fn origin(p: Pass, n: int, k: int) -> int
    decreases n,
{
    if n <= 0 {
        -1
    } else if p.outcomes[n - 1].kept && k == survivors(p, n - 1).len() {
        n - 1
    } else {
        origin(p, n - 1, k)
    }
}

/// The table index of the parent of newborn `k` among the first `n` cells.
pub open spec fn parent(p: Pass, n: int, first_id: int, k: int) -> int
    decreases n,
{
    if n <= 0 {
        -1
    } else if p.outcomes[n - 1].delta is AddCell && k == newborns(p, n - 1, first_id).len() {
        n - 1
    } else {
        parent(p, n - 1, first_id, k)
    }
}

/// Each survivor is a cell of the table that was kept, as its turn left it.
pub proof fn lemma_survivor(p: Pass, n: int, k: int)
    requires
        0 <= n <= p.done.len(),
        n <= p.outcomes.len(),
        0 <= k < survivors(p, n).len(),
    ensures
        0 <= origin(p, n, k) < n,
        p.outcomes[origin(p, n, k)].kept,
        survivors(p, n)[k] == p.done[origin(p, n, k)],
    decreases n,
{
    if n > 0 {
        if p.outcomes[n - 1].kept && k == survivors(p, n - 1).len() {
        } else {
            lemma_survivor(p, n - 1, k);
        }
    }
}

/// The survivors stand in table order.
pub proof fn lemma_survivors_in_order(p: Pass, n: int, k1: int, k2: int)
    requires
        0 <= n <= p.done.len(),
        n <= p.outcomes.len(),
        0 <= k1 < k2 < survivors(p, n).len(),
    ensures
        origin(p, n, k1) < origin(p, n, k2),
    decreases n,
{
    if n > 0 {
        if p.outcomes[n - 1].kept && k2 == survivors(p, n - 1).len() {
            lemma_survivor(p, n - 1, k1);
        } else {
            lemma_survivors_in_order(p, n - 1, k1, k2);
        }
    }
}

/// Each newborn is the cell that a cell of the table split off, with the id
/// that its place among the newborns gives it.
pub proof fn lemma_newborn(p: Pass, n: int, first_id: int, k: int)
    requires
        0 <= n <= p.outcomes.len(),
        0 <= k < newborns(p, n, first_id).len(),
    ensures
        0 <= parent(p, n, first_id, k) < n,
        newborns(p, n, first_id).len() <= n,
        p.outcomes[parent(p, n, first_id, k)].delta matches DeltaView::AddCell(child)
            && newborns(p, n, first_id)[k] == (CellView { id: (first_id + k) as u64, ..child }),
    decreases n,
{
    if n > 0 {
        lemma_newborn_count(p, n - 1, first_id);
        if p.outcomes[n - 1].delta is AddCell && k == newborns(p, n - 1, first_id).len() {
        } else {
            lemma_newborn(p, n - 1, first_id, k);
        }
    }
}

/// There are no more newborns than parents.
pub proof fn lemma_newborn_count(p: Pass, n: int, first_id: int)
    requires
        0 <= n,
    ensures
        newborns(p, n, first_id).len() <= n,
    decreases n,
{
    if n > 0 {
        lemma_newborn_count(p, n - 1, first_id);
    }
}

/// The newborns stand in table order of their parents.
pub proof fn lemma_newborns_in_order(p: Pass, n: int, first_id: int, k1: int, k2: int)
    requires
        0 <= n <= p.outcomes.len(),
        0 <= k1 < k2 < newborns(p, n, first_id).len(),
    ensures
        parent(p, n, first_id, k1) < parent(p, n, first_id, k2),
    decreases n,
{
    if n > 0 {
        if p.outcomes[n - 1].delta is AddCell && k2 == newborns(p, n - 1, first_id).len() {
            lemma_newborn(p, n - 1, first_id, k1);
        } else {
            lemma_newborns_in_order(p, n - 1, first_id, k1, k2);
        }
    }
}

/// The table after a tick: the survivors, then the newborns.
pub open spec fn table_after(
    cells: Seq<CellView>,
    grid: Grid,
    bedrock: Set<I3>,
    targets: Seq<I3>,
    first_id: int,
) -> Seq<CellView> {
    let n = cells.len() as int;
    let p = pass(cells, grid, bedrock, targets, n);
    survivors(p, n) + newborns(p, n, first_id)
}

/// The number of cells born in a tick.
pub open spec fn births(
    cells: Seq<CellView>,
    grid: Grid,
    bedrock: Set<I3>,
    targets: Seq<I3>,
) -> nat {
    let n = cells.len() as int;
    newborns(pass(cells, grid, bedrock, targets, n), n, 0).len()
}

/// The number of newborns does not depend on the ids they get.
pub proof fn lemma_newborns_len(p: Pass, n: int, a: int, b: int)
    ensures
        newborns(p, n, a).len() == newborns(p, n, b).len(),
    decreases n,
{
    if n > 0 {
        lemma_newborns_len(p, n - 1, a, b);
    }
}

/// After a tick every cell stands in the terrain, whatever the table was
/// like before.
pub proof fn lemma_tick_in_grid(
    cells: Seq<CellView>,
    grid: Grid,
    bedrock: Set<I3>,
    targets: Seq<I3>,
    first_id: int,
)
    ensures
        all_in_grid(table_after(cells, grid, bedrock, targets, first_id), grid),
{
    let n = cells.len() as int;
    let p = pass(cells, grid, bedrock, targets, n);
    lemma_pass_shape(cells, grid, bedrock, targets, n);
    let s = survivors(p, n);
    let t = table_after(cells, grid, bedrock, targets, first_id);
    assert forall|k: int| 0 <= k < t.len() implies grid.has((#[trigger] t[k]).pi) by {
        if k < s.len() {
            lemma_survivor(p, n, k);
            assert(p.outcomes[origin(p, n, k)].kept);
        } else {
            lemma_newborn(p, n, first_id, k - s.len());
            assert(claim_in_grid(child_claim(p, parent(p, n, first_id, k - s.len())), grid));
        }
    }
}

/// What holds of a pass over any table: its lengths, that a cell is kept
/// only where it has not starved and stands in the terrain, that a turn
/// leaves a cell's id alone, and that a newborn stands in the terrain.
pub proof fn lemma_pass_shape(
    cells: Seq<CellView>,
    grid: Grid,
    bedrock: Set<I3>,
    targets: Seq<I3>,
    n: int,
)
    requires
        0 <= n <= cells.len(),
    ensures
        ({
            let p = pass(cells, grid, bedrock, targets, n);
            &&& p.done.len() == n
            &&& p.outcomes.len() == n
            &&& forall|j: int| 0 <= j < n ==> (#[trigger] p.done[j]).id == cells[j].id
            &&& forall|j: int|
                0 <= j < n ==> (#[trigger] p.outcomes[j]).kept == (!(p.outcomes[j].delta
                    is KillSelf) && grid.has(p.done[j].pi))
            &&& forall|j: int| claim_in_grid(#[trigger] child_claim(p, j), grid)
        }),
    decreases n,
{
    if n > 0 {
        lemma_pass_shape(cells, grid, bedrock, targets, n - 1);
        let p = pass(cells, grid, bedrock, targets, n - 1);
        let q = pass(cells, grid, bedrock, targets, n);
        let env = Env { occupied: p.occupied, grid, tags: p.tags };
        lemma_tick_frame(cells[n - 1], env);
        assert forall|j: int| claim_in_grid(#[trigger] child_claim(q, j), grid) by {
            if j != n - 1 {
                assert(child_claim(q, j) == child_claim(p, j));
            }
        }
    }
}

/// A tick keeps a table in order: where every id was issued and unique and
/// there was one entity per voxel before, the same holds after, with the
/// newborns' ids counted as issued.
pub proof fn lemma_tick_keeps_order(
    cells: Seq<CellView>,
    grid: Grid,
    bedrock: Set<I3>,
    targets: Seq<I3>,
    first_id: int,
)
    requires
        ids_below(cells, first_id),
        ids_distinct(cells),
        one_per_voxel(cells, bedrock),
        0 <= first_id,
        first_id + cells.len() <= u64::MAX,
    ensures
        ({
            let t = table_after(cells, grid, bedrock, targets, first_id);
            &&& ids_below(t, first_id + births(cells, grid, bedrock, targets))
            &&& ids_distinct(t)
            &&& one_per_voxel(t, bedrock)
        }),
{
    let n = cells.len() as int;
    let p = pass(cells, grid, bedrock, targets, n);
    lemma_pass_inv(cells, grid, bedrock, targets, n);
    let s = survivors(p, n);
    let b = newborns(p, n, first_id);
    let t = table_after(cells, grid, bedrock, targets, first_id);
    lemma_newborns_len(p, n, first_id, 0);
    lemma_newborn_count(p, n, first_id);
    assert forall|k: int| 0 <= k < t.len() implies !bedrock.contains((#[trigger] t[k]).pi)
        && t[k].id < first_id + births(cells, grid, bedrock, targets) by {
        lemma_table_after_source(cells, p, n, first_id, k);
        if k < s.len() {
            assert(claim_sound(cell_claim(cells, p, origin(p, n, k)), p.occupied, bedrock));
        } else {
            assert(claim_sound(
                child_claim(p, parent(p, n, first_id, k - s.len())),
                p.occupied,
                bedrock,
            ));
        }
    }
    assert forall|k1: int, k2: int| 0 <= k1 < k2 < t.len() implies (#[trigger] t[k1]).pi != (
    #[trigger] t[k2]).pi && t[k1].id != t[k2].id by {
        lemma_table_after_source(cells, p, n, first_id, k1);
        lemma_table_after_source(cells, p, n, first_id, k2);
        if k2 < s.len() {
            lemma_survivors_in_order(p, n, k1, k2);
            let o1 = origin(p, n, k1);
            let o2 = origin(p, n, k2);
            assert(cell_claim(cells, p, o1) != cell_claim(cells, p, o2));
            assert(cells[o1].id != cells[o2].id);
        } else if k1 < s.len() {
            let o1 = origin(p, n, k1);
            let o2 = parent(p, n, first_id, k2 - s.len());
            assert(cell_claim(cells, p, o1) != child_claim(p, o2));
            assert(cells[o1].id < first_id);
        } else {
            lemma_newborns_in_order(p, n, first_id, k1 - s.len(), k2 - s.len());
            let o1 = parent(p, n, first_id, k1 - s.len());
            let o2 = parent(p, n, first_id, k2 - s.len());
            assert(child_claim(p, o1) != child_claim(p, o2));
        }
    }
}

/// Ids come out in increasing order and none comes out twice: after a tick
/// a survivor has the id it had, and the newborns have the ids from
/// `first_id` on, in the order in which they stand in the table.
pub proof fn lemma_tick_ids(
    cells: Seq<CellView>,
    grid: Grid,
    bedrock: Set<I3>,
    targets: Seq<I3>,
    first_id: int,
    k: int,
)
    requires
        0 <= first_id,
        first_id + cells.len() <= u64::MAX,
        0 <= k < table_after(cells, grid, bedrock, targets, first_id).len(),
    ensures
        ({
            let n = cells.len() as int;
            let p = pass(cells, grid, bedrock, targets, n);
            let t = table_after(cells, grid, bedrock, targets, first_id);
            let kept = survivors(p, n).len();
            &&& k < kept ==> 0 <= origin(p, n, k) < n && t[k].id == cells[origin(p, n, k)].id
            &&& k >= kept ==> t[k].id == first_id + (k - kept)
            &&& t.len() == kept + births(cells, grid, bedrock, targets)
        }),
{
    let n = cells.len() as int;
    let p = pass(cells, grid, bedrock, targets, n);
    lemma_pass_shape(cells, grid, bedrock, targets, n);
    lemma_newborns_len(p, n, first_id, 0);
    lemma_table_after_source(cells, p, n, first_id, k);
}

/// Where cell `k` of the table after a tick comes from: a survivor is a
/// cell of the old table with its claim and its id, a newborn has its
/// parent's offer of a voxel and a fresh id.
proof fn lemma_table_after_source(cells: Seq<CellView>, p: Pass, n: int, first_id: int, k: int)
    requires
        n == cells.len(),
        p.done.len() == n,
        p.outcomes.len() == n,
        forall|j: int| 0 <= j < n ==> (#[trigger] p.done[j]).id == cells[j].id,
        forall|j: int|
            0 <= j < n ==> (#[trigger] p.outcomes[j]).kept ==> !(p.outcomes[j].delta is KillSelf),
        0 <= k < (survivors(p, n) + newborns(p, n, first_id)).len(),
        0 <= first_id,
        first_id + n <= u64::MAX,
    ensures
        ({
            let s = survivors(p, n);
            let t = s + newborns(p, n, first_id);
            if k < s.len() {
                let o = origin(p, n, k);
                &&& 0 <= o < n
                &&& t[k] == p.done[o]
                &&& cell_claim(cells, p, o) == Some(t[k].pi)
                &&& t[k].id == cells[o].id
            } else {
                let o = parent(p, n, first_id, k - s.len());
                &&& 0 <= o < n
                &&& child_claim(p, o) == Some(t[k].pi)
                &&& t[k].id == first_id + (k - s.len())
                &&& k - s.len() < n
            }
        }),
{
    let s = survivors(p, n);
    if k < s.len() {
        lemma_survivor(p, n, k);
        assert(p.outcomes[origin(p, n, k)].kept);
        assert(p.done[origin(p, n, k)].id == cells[origin(p, n, k)].id);
    } else {
        lemma_newborn(p, n, first_id, k - s.len());
    }
}

} // verus!
