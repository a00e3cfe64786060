//! The cell machine: what one tick does to a cell, as a function of the
//! cell and of what it can see, and the code that runs it.
use vstd::prelude::*;
use crate::cell::{Cell, CellView, blank_bank};
use crate::geometry::I3;
use crate::isa::{Instr, Op, decode, instr_of};
use crate::occupancy::{Occupancy, TagIndex};
use crate::scan::{Env, Probe, env_of, first_hit, lemma_first_hit_found, scan_neighbor};
use crate::terrain::{Block, Grid, block_for, block_of};

verus! {

/// What one tick of a cell asks of the world.
#[derive(Clone, Copy, Debug, PartialEq, Eq)]
pub enum StateDelta {
    NoChange,
    /// The cell has starved and is to leave the table.
    KillSelf,
    /// The cell has split: the new cell, which has no id yet.
    AddCell(Cell),
    /// Absorb the cell with this id.
    Assimilate(u64),
    /// Act on the cell with this id: `true` pushes it away, `false` pulls it.
    Repul(u64, bool),
    /// Move energy: `true` sends to the cell with this id, `false` takes from it.
    SendEps(u64, bool),
    /// Take in the light that falls on the cell.
    BlockLight,
}

/// A `StateDelta` as a mathematical value.
#[verifier::ext_equal]
pub enum DeltaView {
    NoChange,
    KillSelf,
    AddCell(CellView),
    Assimilate(u64),
    Repul(u64, bool),
    SendEps(u64, bool),
    BlockLight,
}

impl View for StateDelta {
    type V = DeltaView;

    open spec fn view(&self) -> DeltaView {
        match *self {
            StateDelta::NoChange => DeltaView::NoChange,
            StateDelta::KillSelf => DeltaView::KillSelf,
            StateDelta::AddCell(c) => DeltaView::AddCell(c@),
            StateDelta::Assimilate(id) => DeltaView::Assimilate(id),
            StateDelta::Repul(id, push) => DeltaView::Repul(id, push),
            StateDelta::SendEps(id, send) => DeltaView::SendEps(id, send),
            StateDelta::BlockLight => DeltaView::BlockLight,
        }
    }
}

/// A tick without energy: the decay counter goes up by one and stops at its
/// maximum, where the cell dies. No instruction runs.
pub open spec fn starve(c: CellView) -> (CellView, DeltaView) {
    let decay = if c.decay == 0xff {
        0xffu8
    } else {
        (c.decay + 1) as u8
    };
    (
        CellView { decay, ..c },
        if decay == 0xff {
            DeltaView::KillSelf
        } else {
            DeltaView::NoChange
        },
    )
}

/// What an instruction costs: one unit of energy, two in the `ext` mode.
pub open spec fn cost(c: CellView) -> int {
    if c.ext {
        2
    } else {
        1
    }
}

/// The cell once it has paid for its instruction: decay starts over, and the
/// energy goes down by the cost, stopping at zero.
pub open spec fn charge(c: CellView) -> CellView {
    CellView {
        decay: 0,
        epsilon: if c.epsilon >= cost(c) {
            (c.epsilon - cost(c)) as u8
        } else {
            0
        },
        ..c
    }
}

/// The byte that the instruction pointer selects in the first bank.
pub open spec fn fetch(c: CellView) -> u8 {
    c.prog[c.ip as int % 128]
}

/// The cell with its instruction pointer moved on by one, around the first bank.
pub open spec fn advance(c: CellView) -> CellView {
    CellView { ip: ((c.ip + 1) % 128) as u8, ..c }
}

/// The cell with register `r` set to `v`.
pub open spec fn set_reg(c: CellView, r: u8, v: u8) -> CellView {
    CellView { regs: c.regs.update(r as int, v), ..c }
}

/// Whether a jump is taken: always where the source operand is even, else
/// only where the condition flag is set.
pub open spec fn jump_taken(c: CellView, i: Instr) -> bool {
    i.src % 2 == 0 || c.result
}

/// The program address that register `r` names: within the first bank, or
/// within both banks in the `ext` mode.
pub open spec fn address(c: CellView, r: u8) -> int {
    if c.ext {
        c.regs[r as int] as int
    } else {
        c.regs[r as int] as int % 128
    }
}

/// The two nibbles of a byte, swapped.
pub open spec fn swap_nibbles(v: u8) -> u8 {
    ((v % 16) * 16 + v / 16) as u8
}

/// The cell that a division puts into voxel `v`: it gets the larger half of
/// the parent's energy and the parent's second bank as its first.
pub open spec fn newborn(c: CellView, v: I3) -> CellView {
    CellView {
        id: 0,
        pi: v,
        epsilon: (c.epsilon - c.epsilon / 2) as u8,
        decay: 0,
        prog: c.bank1() + blank_bank(),
        regs: Seq::new(4, |i: int| 0u8),
        ip: 0,
        ext: false,
        result: false,
    }
}

/// The voxel that a division picks: in the `ext` mode the first voxel in
/// reach that holds the terrain named by the destination operand and that
/// nothing claims.
pub open spec fn divide_target(c: CellView, i: Instr, env: Env) -> Option<I3> {
    if c.ext {
        first_hit(Probe::Vacant(block_of(i.dst)), env, c.pi)
    } else {
        None
    }
}

/// `divide`.
pub open spec fn divide(c: CellView, i: Instr, env: Env) -> (CellView, DeltaView) {
    match divide_target(c, i, env) {
        Some(v) => (
            advance(CellView { prog: c.bank0() + blank_bank(), result: true, ext: false, ..c }),
            DeltaView::AddCell(newborn(c, v)),
        ),
        None => (advance(CellView { result: false, ext: false, ..c }), DeltaView::NoChange),
    }
}

/// The id of the first cell in reach whose tag equals the destination register.
pub open spec fn tagged_neighbor(c: CellView, i: Instr, env: Env) -> Option<u64> {
    match first_hit(Probe::Tagged(c.regs[i.dst as int]), env, c.pi) {
        Some(v) => Some(env.tags[v].1),
        None => None,
    }
}

/// `share`, `force` and `fuse`: look for a neighbour by tag and, where there
/// is one, ask for the effect on it.
pub open spec fn reach_out(c: CellView, i: Instr, env: Env) -> (CellView, DeltaView) {
    match tagged_neighbor(c, i, env) {
        Some(id) => (
            advance(CellView { result: true, ext: c.ext || i.op == Op::Fuse, ..c }),
            if i.op == Op::Share {
                DeltaView::SendEps(id, i.src % 2 == 0)
            } else if i.op == Op::Force {
                DeltaView::Repul(id, i.src % 2 == 0)
            } else {
                DeltaView::Assimilate(id)
            },
        ),
        None => (advance(CellView { result: false, ..c }), DeltaView::NoChange),
    }
}

/// `nearby`: the tag of the first cell in reach that stands in terrain other
/// than the one named by the source operand.
pub open spec fn nearby(c: CellView, i: Instr, env: Env) -> CellView {
    match first_hit(Probe::Foreign(block_of(i.src)), env, c.pi) {
        Some(v) => advance(CellView { result: true, ..set_reg(c, i.dst, env.tags[v].0) }),
        None => advance(CellView { result: false, ..c }),
    }
}

/// The first address after the instruction pointer, going around the first
/// bank and starting `k` bytes on, at which the program holds `needle`.
pub open spec fn seek(c: CellView, needle: u8, k: int) -> Option<u8>
    decreases 128 - k,
{
    if k >= 128 {
        None
    } else if c.prog[(c.ip + k) % 128] == needle {
        Some(((c.ip + k) % 128) as u8)
    } else {
        seek(c, needle, k + 1)
    }
}

/// `jmpa`, `jmpr` and `jmpc`. A jump that is taken sets the instruction
/// pointer itself; one that is not taken moves on to the next byte.
pub open spec fn jump(c: CellView, i: Instr) -> CellView {
    if !jump_taken(c, i) {
        advance(c)
    } else if i.op == Op::Jmpa {
        CellView { ip: (c.regs[i.dst as int] % 128) as u8, ..c }
    } else if i.op == Op::Jmpr {
        CellView { ip: ((c.ip + c.regs[i.dst as int]) % 128) as u8, ..c }
    } else {
        match seek(c, c.regs[i.dst as int], 1) {
            Some(a) => CellView { ip: a, result: true, ..c },
            None => CellView { result: false, ..c },
        }
    }
}

/// The effect of instruction `i` on cell `c`, which has paid for it, and what
/// it asks of the world.
pub open spec fn effect(c: CellView, i: Instr, env: Env) -> (CellView, DeltaView) {
    match i.op {
        Op::Divide => divide(c, i, env),
        Op::Check => (
            advance(CellView { result: env.grid.block(c.pi) == block_of(i.dst), ..c }),
            DeltaView::NoChange,
        ),
        Op::Share | Op::Force | Op::Fuse => reach_out(c, i, env),
        Op::Reserved => (advance(c), DeltaView::NoChange),
        Op::Drain => (advance(CellView { epsilon: 0, ..c }), DeltaView::NoChange),
        Op::CloneBank => (
            advance(CellView { prog: c.bank0() + c.bank0(), ext: true, ..c }),
            DeltaView::NoChange,
        ),
        Op::Reduce => (
            advance(CellView { prog: c.bank0() + blank_bank(), ext: false, ..c }),
            DeltaView::NoChange,
        ),
        Op::Flip => (advance(CellView { result: !c.result, ..c }), DeltaView::NoChange),
        Op::GetAlpha => (
            if env.grid.block(c.pi) == Block::Water {
                advance(
                    CellView {
                        epsilon: if c.epsilon + 16 > 0xff {
                            0xffu8
                        } else {
                            (c.epsilon + 16) as u8
                        },
                        result: true,
                        ..c
                    },
                )
            } else {
                advance(CellView { result: false, ..c })
            },
            DeltaView::NoChange,
        ),
        Op::GetPhi => (advance(c), DeltaView::BlockLight),
        Op::Jmpa | Op::Jmpr | Op::Jmpc => (jump(c, i), DeltaView::NoChange),
        Op::Movi => (advance(set_reg(c, i.dst, i.imm)), DeltaView::NoChange),
        Op::Inspect => (advance(set_reg(c, i.dst, c.epsilon)), DeltaView::NoChange),
        Op::Not => (
            advance(set_reg(c, i.dst, (0xff - c.regs[i.dst as int]) as u8)),
            DeltaView::NoChange,
        ),
        Op::Swap => (
            advance(set_reg(c, i.dst, swap_nibbles(c.regs[i.dst as int]))),
            DeltaView::NoChange,
        ),
        Op::And => (
            advance(set_reg(c, i.dst, c.regs[i.dst as int] & c.regs[i.src as int])),
            DeltaView::NoChange,
        ),
        Op::Or => (
            advance(set_reg(c, i.dst, c.regs[i.dst as int] | c.regs[i.src as int])),
            DeltaView::NoChange,
        ),
        Op::Add => (
            advance(
                CellView {
                    result: c.regs[i.dst as int] + c.regs[i.src as int] >= 0x100,
                    ..set_reg(
                        c,
                        i.dst,
                        ((c.regs[i.dst as int] + c.regs[i.src as int]) % 0x100) as u8,
                    )
                },
            ),
            DeltaView::NoChange,
        ),
        Op::Mov => (advance(set_reg(c, i.dst, c.regs[i.src as int])), DeltaView::NoChange),
        Op::St => (
            advance(CellView { prog: c.prog.update(address(c, i.dst), c.regs[i.src as int]), ..c }),
            DeltaView::NoChange,
        ),
        Op::Ld => (advance(set_reg(c, i.dst, c.prog[address(c, i.src)])), DeltaView::NoChange),
        Op::Nearby => (nearby(c, i, env), DeltaView::NoChange),
    }
}

/// One tick of a cell: without energy it starves; with energy it pays for the
/// instruction under its instruction pointer and runs it.
pub open spec fn tick(c: CellView, env: Env) -> (CellView, DeltaView) {
    if c.epsilon == 0 {
        starve(c)
    } else {
        effect(charge(c), instr_of(fetch(charge(c))), env)
    }
}


/// What `seek` finds is an address of the first bank that holds the needle.
pub proof fn lemma_seek_finds(c: CellView, needle: u8, k: int)
    requires
        0 <= k,
    ensures
        seek(c, needle, k) matches Some(a) ==> a < 128 && c.prog[a as int] == needle,
    decreases 128 - k,
{
    if k < 128 && c.prog[(c.ip + k) % 128] != needle {
        lemma_seek_finds(c, needle, k + 1);
    }
}

/// A tick leaves the program and the registers their lengths, and the cell
/// its id and its voxel. A cell that runs an instruction starts its decay
/// over, pays no more than it has, and ends with its instruction pointer in
/// the first bank, whatever the byte it ran.
pub proof fn lemma_tick_keeps_shape(c: CellView, env: Env)
    requires
        c.wf(),
    ensures
        tick(c, env).0.wf(),
        tick(c, env).0.id == c.id,
        tick(c, env).0.pi == c.pi,
        c.epsilon > 0 ==> tick(c, env).0.ip < 128 && tick(c, env).0.decay == 0,
        c.epsilon == 0 ==> tick(c, env).0.epsilon == 0 && tick(c, env).0.decay >= c.decay
            && tick(c, env).0.prog == c.prog && tick(c, env).0.regs == c.regs && tick(
            c,
            env,
        ).0.ip == c.ip,
{
    if c.epsilon > 0 {
        let c1 = charge(c);
        let i = instr_of(fetch(c1));
        lemma_seek_finds(c1, c1.regs[i.dst as int], 1);
    }
}

/// Zeroes the second bank.
fn clear_bank1(prog: &mut [u8; 256])
    ensures
        final(prog)@ == old(prog)@.subrange(0, 128) + blank_bank(),
{
    let mut k: usize = 128;
    while k < 256
        invariant
            128 <= k <= 256,
            forall|j: int| 0 <= j < 128 ==> prog@[j] == old(prog)@[j],
            forall|j: int| 128 <= j < k ==> prog@[j] == 0,
        decreases 256 - k,
    {
        prog[k] = 0;
        k = k + 1;
    }
    assert(prog@ =~= old(prog)@.subrange(0, 128) + blank_bank());
}

/// Copies the first bank over the second.
fn copy_bank0(prog: &mut [u8; 256])
    ensures
        final(prog)@ == old(prog)@.subrange(0, 128) + old(prog)@.subrange(0, 128),
{
    let mut k: usize = 0;
    while k < 128
        invariant
            k <= 128,
            forall|j: int| 0 <= j < 128 ==> prog@[j] == old(prog)@[j],
            forall|j: int| 0 <= j < k ==> prog@[128 + j] == old(prog)@[j],
        decreases 128 - k,
    {
        let b = prog[k];
        prog[k + 128] = b;
        k = k + 1;
    }
    assert(prog@ =~= old(prog)@.subrange(0, 128) + old(prog)@.subrange(0, 128));
}

/// A program whose first bank is the second bank of `prog` and whose second
/// bank is zero.
fn bank1_program(prog: &[u8; 256]) -> (p: [u8; 256])
    ensures
        p@ == prog@.subrange(128, 256) + blank_bank(),
{
    let mut p = [0u8;256];
    let mut k: usize = 0;
    while k < 128
        invariant
            k <= 128,
            forall|j: int| 0 <= j < k ==> p@[j] == prog@[128 + j],
            forall|j: int| k <= j < 256 ==> p@[j] == 0,
        decreases 128 - k,
    {
        p[k] = prog[k + 128];
        k = k + 1;
    }
    assert(p@ =~= prog@.subrange(128, 256) + blank_bank());
    p
}

/// Moves the instruction pointer on by one, around the first bank.
fn advance_ip(c: &mut Cell)
    ensures
        final(c)@ == advance(old(c)@),
{
    c.ip = ((c.ip as u16 + 1) % 128) as u8;
}

/// Sets register `r` to `v`.
fn write_reg(c: &mut Cell, r: u8, v: u8)
    requires
        r < 4,
    ensures
        final(c)@ == set_reg(old(c)@, r, v),
{
    c.regs[r as usize] = v;
}

/// The program address that register `r` names.
fn address_of(c: &Cell, r: u8) -> (a: usize)
    requires
        r < 4,
    ensures
        a == address(c@, r),
        a < 256,
{
    let v = c.regs[r as usize];
    if c.ext {
        v as usize
    } else {
        (v % 128) as usize
    }
}

/// Runs `divide`.
fn run_divide(
    c: &mut Cell,
    i: Instr,
    occupation: &Occupancy,
    blocks: &Grid,
    cell_tags: &TagIndex,
) -> (delta: StateDelta)
    requires
        i.wf(),
    ensures
        (final(c)@, delta@) == divide(old(c)@, i, env_of(occupation, blocks, cell_tags)),
{
    let target = if c.ext {
        scan_neighbor(c.pi, Probe::Vacant(block_for(i.dst)), occupation, blocks, cell_tags)
    } else {
        None
    };
    match target {
        Some(v) => {
            let mut child = Cell::new(0, v, c.epsilon - c.epsilon / 2);
            child.prog = bank1_program(&c.prog);
            assert(child@ =~= newborn(old(c)@, v));
            clear_bank1(&mut c.prog);
            c.result = true;
            c.ext = false;
            advance_ip(c);
            StateDelta::AddCell(child)
        },
        None => {
            c.result = false;
            c.ext = false;
            advance_ip(c);
            StateDelta::NoChange
        },
    }
}

/// Runs `share`, `force` or `fuse`.
fn run_reach_out(
    c: &mut Cell,
    i: Instr,
    occupation: &Occupancy,
    blocks: &Grid,
    cell_tags: &TagIndex,
) -> (delta: StateDelta)
    requires
        i.wf(),
        i.op == Op::Share || i.op == Op::Force || i.op == Op::Fuse,
    ensures
        (final(c)@, delta@) == reach_out(old(c)@, i, env_of(occupation, blocks, cell_tags)),
{
    let tag = c.regs[i.dst as usize];
    let found = scan_neighbor(c.pi, Probe::Tagged(tag), occupation, blocks, cell_tags);
    proof {
        lemma_first_hit_found(Probe::Tagged(tag), env_of(occupation, blocks, cell_tags), c.pi);
    }
    let entry = match found {
        Some(v) => cell_tags.get(v),
        None => None,
    };
    match entry {
        Some(e) => {
            let id = e.1;
            let flag = i.src % 2 == 0;
            let delta = match i.op {
                Op::Share => StateDelta::SendEps(id, flag),
                Op::Force => StateDelta::Repul(id, flag),
                _ => {
                    c.ext = true;
                    StateDelta::Assimilate(id)
                },
            };
            c.result = true;
            advance_ip(c);
            delta
        },
        None => {
            c.result = false;
            advance_ip(c);
            StateDelta::NoChange
        },
    }
}

/// Runs `nearby`.
fn run_nearby(c: &mut Cell, i: Instr, occupation: &Occupancy, blocks: &Grid, cell_tags: &TagIndex)
    requires
        i.wf(),
    ensures
        final(c)@ == nearby(old(c)@, i, env_of(occupation, blocks, cell_tags)),
{
    let probe = Probe::Foreign(block_for(i.src));
    let found = scan_neighbor(c.pi, probe, occupation, blocks, cell_tags);
    proof {
        lemma_first_hit_found(probe, env_of(occupation, blocks, cell_tags), c.pi);
    }
    let entry = match found {
        Some(v) => cell_tags.get(v),
        None => None,
    };
    match entry {
        Some(e) => {
            write_reg(c, i.dst, e.0);
            c.result = true;
        },
        None => {
            c.result = false;
        },
    }
    advance_ip(c);
}

/// The first address after the instruction pointer, going around the first
/// bank, at which the program holds `needle`.
fn seek_byte(c: &Cell, needle: u8) -> (found: Option<u8>)
    ensures
        found == seek(c@, needle, 1),
{
    let mut k: u16 = 1;
    while k < 128
        invariant
            1 <= k <= 128,
            seek(c@, needle, 1) == seek(c@, needle, k as int),
        decreases 128 - k,
    {
        let addr: u16 = (c.ip as u16 + k) % 128;
        if c.prog[addr as usize] == needle {
            return Some(addr as u8);
        }
        k = k + 1;
    }
    None
}

/// Runs `jmpa`, `jmpr` or `jmpc`.
fn run_jump(c: &mut Cell, i: Instr)
    requires
        i.wf(),
        i.op == Op::Jmpa || i.op == Op::Jmpr || i.op == Op::Jmpc,
    ensures
        final(c)@ == jump(old(c)@, i),
{
    if !(i.src % 2 == 0 || c.result) {
        advance_ip(c);
        return ;
    }
    let r = c.regs[i.dst as usize];
    match i.op {
        Op::Jmpa => {
            c.ip = r % 128;
        },
        Op::Jmpr => {
            c.ip = ((c.ip as u16 + r as u16) % 128) as u8;
        },
        _ => {
            match seek_byte(c, r) {
                Some(a) => {
                    c.ip = a;
                    c.result = true;
                },
                None => {
                    c.result = false;
                },
            }
        },
    }
}

/// Runs an instruction on a cell that has paid for it. Returns what the
/// instruction asks of the world.
pub fn execute(
    c: &mut Cell,
    i: Instr,
    occupation: &Occupancy,
    blocks: &Grid,
    cell_tags: &TagIndex,
) -> (delta: StateDelta)
    requires
        i.wf(),
        blocks.has(old(c).pi),
    ensures
        (final(c)@, delta@) == effect(old(c)@, i, env_of(occupation, blocks, cell_tags)),
{
    match i.op {
        Op::Divide => {
            return run_divide(c, i, occupation, blocks, cell_tags);
        },
        Op::Check => {
            c.result = blocks.get(c.pi) == block_for(i.dst);
        },
        Op::Share | Op::Force | Op::Fuse => {
            return run_reach_out(c, i, occupation, blocks, cell_tags);
        },
        Op::Reserved => {},
        Op::Drain => {
            c.epsilon = 0;
        },
        Op::CloneBank => {
            copy_bank0(&mut c.prog);
            c.ext = true;
        },
        Op::Reduce => {
            clear_bank1(&mut c.prog);
            c.ext = false;
        },
        Op::Flip => {
            c.result = !c.result;
        },
        Op::GetAlpha => {
            if blocks.get(c.pi) == Block::Water {
                c.epsilon = if c.epsilon > 0xff - 16 {
                    0xff
                } else {
                    c.epsilon + 16
                };
                c.result = true;
            } else {
                c.result = false;
            }
        },
        Op::GetPhi => {
            advance_ip(c);
            return StateDelta::BlockLight;
        },
        Op::Jmpa | Op::Jmpr | Op::Jmpc => {
            run_jump(c, i);
            return StateDelta::NoChange;
        },
        Op::Movi => {
            write_reg(c, i.dst, i.imm);
        },
        Op::Inspect => {
            let v = c.epsilon;
            write_reg(c, i.dst, v);
        },
        Op::Not => {
            let v = c.regs[i.dst as usize];
            assert(!v == 0xff - v) by (bit_vector);
            write_reg(c, i.dst, !v);
        },
        Op::Swap => {
            let v = c.regs[i.dst as usize];
            assert((v << 4) | (v >> 4) == ((v % 16) * 16 + v / 16) as u8) by (bit_vector);
            write_reg(c, i.dst, (v << 4) | (v >> 4));
        },
        Op::And => {
            let v = c.regs[i.dst as usize] & c.regs[i.src as usize];
            write_reg(c, i.dst, v);
        },
        Op::Or => {
            let v = c.regs[i.dst as usize] | c.regs[i.src as usize];
            write_reg(c, i.dst, v);
        },
        Op::Add => {
            let sum: u16 = c.regs[i.dst as usize] as u16 + c.regs[i.src as usize] as u16;
            write_reg(c, i.dst, (sum % 0x100) as u8);
            c.result = sum >= 0x100;
        },
        Op::Mov => {
            let v = c.regs[i.src as usize];
            write_reg(c, i.dst, v);
        },
        Op::St => {
            let a = address_of(c, i.dst);
            let v = c.regs[i.src as usize];
            c.prog[a] = v;
        },
        Op::Ld => {
            let a = address_of(c, i.src);
            let v = c.prog[a];
            write_reg(c, i.dst, v);
        },
        Op::Nearby => {
            run_nearby(c, i, occupation, blocks, cell_tags);
            return StateDelta::NoChange;
        },
    }
    advance_ip(c);
    StateDelta::NoChange
}

/// Runs one tick of cell `c`. A cell without energy runs nothing: its decay
/// goes up, and at the maximum it dies. A cell with energy pays for the
/// instruction under its instruction pointer and runs it; every byte is an
/// instruction.
pub fn step_code(
    c: &mut Cell,
    occupation: &Occupancy,
    blocks: &Grid,
    cell_tags: &TagIndex,
) -> (delta: StateDelta)
    requires
        blocks.has(old(c).pi),
    ensures
        (final(c)@, delta@) == tick(old(c)@, env_of(occupation, blocks, cell_tags)),
{
    if c.epsilon == 0 {
        if c.decay < 0xff {
            c.decay = c.decay + 1;
        }
        if c.decay == 0xff {
            return StateDelta::KillSelf;
        }
        return StateDelta::NoChange;
    }
    c.decay = 0;
    let price: u8 = if c.ext {
        2
    } else {
        1
    };
    c.epsilon = if c.epsilon >= price {
        c.epsilon - price
    } else {
        0
    };
    let inst = c.prog[(c.ip % 128) as usize];
    execute(c, decode(inst), occupation, blocks, cell_tags)
}

} // verus!
