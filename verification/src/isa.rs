//! The instruction set of the cell machine: operations and the byte table
//! that encodes them.
use vstd::prelude::*;

verus! {

/// The operations of the cell machine.
#[derive(Clone, Copy, Debug, PartialEq, Eq, Structural)]
pub enum Op {
    /// Split off a new cell into a free neighbouring voxel.
    Divide,
    /// Test the terrain under the cell.
    Check,
    /// Ask to exchange energy with a tagged neighbour.
    Share,
    /// Ask to push or pull a tagged neighbour.
    Force,
    /// Ask to absorb a tagged neighbour.
    Fuse,
    /// An unassigned byte: does nothing.
    Reserved,
    /// Throw all energy away.
    Drain,
    /// Copy the first bank over the second.
    CloneBank,
    /// Zero the second bank.
    Reduce,
    /// Invert the condition flag.
    Flip,
    /// Draw energy from Water.
    GetAlpha,
    /// Ask to draw energy from light.
    GetPhi,
    /// Jump to the address in a register.
    Jmpa,
    /// Jump forward by the amount in a register.
    Jmpr,
    /// Jump to the next byte of the first bank that equals a register.
    /// The byte table assigns this operation no byte of its own.
    Jmpc,
    /// Load a four-bit immediate.
    Movi,
    /// Read the energy counter.
    Inspect,
    Not,
    /// Swap the two nibbles of a register.
    Swap,
    And,
    Or,
    Add,
    Mov,
    /// Store a register into the program.
    St,
    /// Load a register from the program.
    Ld,
    /// Read the tag of a neighbour that stands in other terrain.
    Nearby,
}

/// The operation that each byte selects. Every byte selects one.
pub open spec fn op_of(inst: u8) -> Op {
    if inst < 0x04 {
        Op::Divide
    } else if inst < 0x08 {
        Op::Check
    } else if inst < 0x0c {
        Op::Share
    } else if inst < 0x14 {
        Op::Force
    } else if inst < 0x1c {
        Op::Fuse
    } else if inst < 0x20 {
        Op::Reserved
    } else if inst == 0x20 {
        Op::Drain
    } else if inst == 0x21 {
        Op::CloneBank
    } else if inst == 0x22 {
        Op::Reduce
    } else if inst == 0x23 {
        Op::Flip
    } else if inst == 0x24 {
        Op::GetAlpha
    } else if inst == 0x25 {
        Op::GetPhi
    } else if inst < 0x30 {
        Op::Reserved
    } else if inst < 0x3f {
        Op::Jmpa
    } else if inst == 0x3f {
        Op::Jmpr
    } else if inst < 0x80 {
        Op::Movi
    } else if inst < 0x84 {
        Op::Inspect
    } else if inst < 0x88 {
        Op::Not
    } else if inst < 0x8c {
        Op::Swap
    } else if inst < 0x90 {
        Op::Reserved
    } else if inst < 0xa0 {
        Op::And
    } else if inst < 0xb0 {
        Op::Or
    } else if inst < 0xc0 {
        Op::Add
    } else if inst < 0xd0 {
        Op::Mov
    } else if inst < 0xe0 {
        Op::St
    } else if inst < 0xf0 {
        Op::Ld
    } else {
        Op::Nearby
    }
}

/// A decoded instruction: the operation and the operands that the byte carries.
#[derive(Clone, Copy, Debug, PartialEq, Eq, Structural)]
pub struct Instr {
    pub op: Op,
    /// Destination register: the byte's two lowest bits.
    pub dst: u8,
    /// Source register: the next two bits.
    pub src: u8,
    /// Immediate: the four bits above the destination.
    pub imm: u8,
}

impl Instr {
    /// Both register operands name one of the four registers, and the
    /// immediate fits four bits.
    pub open spec fn wf(self) -> bool {
        self.dst < 4 && self.src < 4 && self.imm < 16
    }
}

/// The instruction that a byte encodes.
pub open spec fn instr_of(inst: u8) -> Instr {
    Instr { op: op_of(inst), dst: inst % 4, src: (inst / 4) % 4, imm: (inst / 4) % 16 }
}

/// Decodes a byte. There is no byte that fails to decode.
pub fn decode(inst: u8) -> (i: Instr)
    ensures
        i == instr_of(inst),
        i.wf(),
{
    let op = if inst < 0x04 {
        Op::Divide
    } else if inst < 0x08 {
        Op::Check
    } else if inst < 0x0c {
        Op::Share
    } else if inst < 0x14 {
        Op::Force
    } else if inst < 0x1c {
        Op::Fuse
    } else if inst < 0x20 {
        Op::Reserved
    } else if inst < 0x21 {
        Op::Drain
    } else if inst < 0x22 {
        Op::CloneBank
    } else if inst < 0x23 {
        Op::Reduce
    } else if inst < 0x24 {
        Op::Flip
    } else if inst < 0x25 {
        Op::GetAlpha
    } else if inst < 0x26 {
        Op::GetPhi
    } else if inst < 0x30 {
        Op::Reserved
    } else if inst < 0x3f {
        Op::Jmpa
    } else if inst < 0x40 {
        Op::Jmpr
    } else if inst < 0x80 {
        Op::Movi
    } else if inst < 0x84 {
        Op::Inspect
    } else if inst < 0x88 {
        Op::Not
    } else if inst < 0x8c {
        Op::Swap
    } else if inst < 0x90 {
        Op::Reserved
    } else if inst < 0xa0 {
        Op::And
    } else if inst < 0xb0 {
        Op::Or
    } else if inst < 0xc0 {
        Op::Add
    } else if inst < 0xd0 {
        Op::Mov
    } else if inst < 0xe0 {
        Op::St
    } else if inst < 0xf0 {
        Op::Ld
    } else {
        Op::Nearby
    };
    let dst: u8 = inst & 3;
    let src: u8 = (inst >> 2) & 3;
    let imm: u8 = (inst >> 2) & 0xf;
    assert(inst & 3 == inst % 4) by (bit_vector);
    assert((inst >> 2) & 3 == (inst / 4) % 4) by (bit_vector);
    assert((inst >> 2) & 0xf == (inst / 4) % 16) by (bit_vector);
    Instr { op, dst, src, imm }
}

/// Every byte decodes to an operation of the table, and the ranges of the
/// table do not overlap: a byte's operation is fixed by the range it lies in.
pub proof fn lemma_decode_table(inst: u8)
    ensures
        instr_of(inst).wf(),
        inst <= 0x03 <==> op_of(inst) == Op::Divide,
        0x04 <= inst <= 0x07 <==> op_of(inst) == Op::Check,
        0x08 <= inst <= 0x0b <==> op_of(inst) == Op::Share,
        0x0c <= inst <= 0x13 <==> op_of(inst) == Op::Force,
        0x14 <= inst <= 0x1b <==> op_of(inst) == Op::Fuse,
        (0x1c <= inst <= 0x1f || 0x26 <= inst <= 0x2f || 0x8c <= inst <= 0x8f) <==> op_of(inst)
            == Op::Reserved,
        inst == 0x20 <==> op_of(inst) == Op::Drain,
        inst == 0x21 <==> op_of(inst) == Op::CloneBank,
        inst == 0x22 <==> op_of(inst) == Op::Reduce,
        inst == 0x23 <==> op_of(inst) == Op::Flip,
        inst == 0x24 <==> op_of(inst) == Op::GetAlpha,
        inst == 0x25 <==> op_of(inst) == Op::GetPhi,
        0x30 <= inst <= 0x3e <==> op_of(inst) == Op::Jmpa,
        inst == 0x3f <==> op_of(inst) == Op::Jmpr,
        op_of(inst) != Op::Jmpc,
        0x40 <= inst <= 0x7f <==> op_of(inst) == Op::Movi,
        0x80 <= inst <= 0x83 <==> op_of(inst) == Op::Inspect,
        0x84 <= inst <= 0x87 <==> op_of(inst) == Op::Not,
        0x88 <= inst <= 0x8b <==> op_of(inst) == Op::Swap,
        0x90 <= inst <= 0x9f <==> op_of(inst) == Op::And,
        0xa0 <= inst <= 0xaf <==> op_of(inst) == Op::Or,
        0xb0 <= inst <= 0xbf <==> op_of(inst) == Op::Add,
        0xc0 <= inst <= 0xcf <==> op_of(inst) == Op::Mov,
        0xd0 <= inst <= 0xdf <==> op_of(inst) == Op::St,
        0xe0 <= inst <= 0xef <==> op_of(inst) == Op::Ld,
        0xf0 <= inst <==> op_of(inst) == Op::Nearby,
{
}

} // verus!
