//! The cell: an agent with a voxel, a program of two banks, four registers
//! and an energy counter.
use vstd::prelude::*;
use crate::geometry::I3;

verus! {

/// The register whose value is a cell's tag for its neighbours.
pub const TAG_REGISTER: usize = 0;

/// An agent: where it stands, what it runs and what it has left to run on.
/// Its continuous position and velocity are the caller's to keep; the voxel
/// `pi` is what the world's rules read of them.
#[derive(Clone, Copy, Debug, PartialEq, Eq)]
pub struct Cell {
    /// Issued once by the world and never reused.
    pub id: u64,
    /// The voxel the cell stands in.
    pub pi: I3,
    /// Energy: what running an instruction costs.
    pub epsilon: u8,
    /// Ticks spent without energy since the last instruction ran.
    pub decay: u8,
    /// Two banks of 128 bytes: the first is run, the second is a reserve.
    pub prog: [u8; 256],
    pub regs: [u8; 4],
    /// Instruction pointer into the first bank.
    pub ip: u8,
    /// Mode flag: widens addresses to both banks and doubles the cost of an instruction.
    pub ext: bool,
    /// Condition flag: set by tests and sums, read by jumps.
    pub result: bool,
}

/// A cell as a mathematical value: the program and the registers as sequences.
#[verifier::ext_equal]
pub struct CellView {
    pub id: u64,
    pub pi: I3,
    pub epsilon: u8,
    pub decay: u8,
    pub prog: Seq<u8>,
    pub regs: Seq<u8>,
    pub ip: u8,
    pub ext: bool,
    pub result: bool,
}

impl View for Cell {
    type V = CellView;

    open spec fn view(&self) -> CellView {
        CellView {
            id: self.id,
            pi: self.pi,
            epsilon: self.epsilon,
            decay: self.decay,
            prog: self.prog@,
            regs: self.regs@,
            ip: self.ip,
            ext: self.ext,
            result: self.result,
        }
    }
}

impl CellView {
    /// The program has two banks and there are four registers.
    pub open spec fn wf(self) -> bool {
        self.prog.len() == 256 && self.regs.len() == 4
    }

    /// The first bank of the program.
    pub open spec fn bank0(self) -> Seq<u8> {
        self.prog.subrange(0, 128)
    }

    /// The second bank of the program.
    pub open spec fn bank1(self) -> Seq<u8> {
        self.prog.subrange(128, 256)
    }

    /// The tag under which neighbours find the cell.
    pub open spec fn tag(self) -> u8 {
        self.regs[TAG_REGISTER as int]
    }
}

/// A bank of zero bytes.
pub open spec fn blank_bank() -> Seq<u8> {
    Seq::new(128, |i: int| 0u8)
}

/// Two cells with the same view are the same cell.
pub proof fn lemma_view_determines_cell(a: Cell, b: Cell)
    requires
        a@ == b@,
    ensures
        a == b,
{
    assert(a.prog =~= b.prog);
    assert(a.regs =~= b.regs);
}

impl Cell {
    /// A cell at rest in voxel `pi`: zeroed program, registers and flags.
    pub fn new(id: u64, pi: I3, epsilon: u8) -> (c: Cell)
        ensures
            c@ == (CellView {
                id,
                pi,
                epsilon,
                decay: 0,
                prog: blank_bank() + blank_bank(),
                regs: Seq::new(4, |i: int| 0u8),
                ip: 0,
                ext: false,
                result: false,
            }),
    {
        let c = Cell {
            id,
            pi,
            epsilon,
            decay: 0,
            prog: [0u8;256],
            regs: [0u8;4],
            ip: 0,
            ext: false,
            result: false,
        };
        assert(c@.prog =~= blank_bank() + blank_bank());
        assert(c@.regs =~= Seq::new(4, |i: int| 0u8));
        c
    }
}

} // verus!
