//! Machine-level instructions of the Ola target: virtual registers,
//! operands, opcodes, and the instructions a lowering step appends to a
//! machine function.
use vstd::prelude::*;

verus! {

/// A virtual register of a machine function, identified by its number.
#[derive(Clone, Copy, Debug, PartialEq, Eq, Hash, Structural)]
pub struct VReg(pub u32);

/// What an operand of a machine instruction holds.
#[derive(Clone, Copy, Debug, PartialEq, Eq, Structural)]
pub enum OperandData {
    /// A virtual register.
    VReg(VReg),
    /// A 32-bit immediate.
    Int32(i32),
    /// A 64-bit immediate.
    Int64(i64),
}

/// An operand together with the direction in which the instruction uses it.
#[derive(Clone, Copy, Debug, PartialEq, Eq, Structural)]
pub struct Operand {
    pub data: OperandData,
    pub input: bool,
    pub output: bool,
}

impl Operand {
    /// An operand that the instruction reads.
    pub fn input(data: OperandData) -> (op: Operand)
        ensures
            op == (Operand { data, input: true, output: false }),
    {
        Operand { data, input: true, output: false }
    }

    /// An operand that the instruction writes.
    pub fn output(data: OperandData) -> (op: Operand)
        ensures
            op == (Operand { data, input: false, output: true }),
    {
        Operand { data, input: false, output: true }
    }
}

/// Opcodes that the lowering steps of this crate emit.
#[derive(Clone, Copy, Debug, PartialEq, Eq, Structural)]
pub enum Opcode {
    /// Register-to-register (or immediate-to-register) move.
    MOVrr,
}

/// An opcode with its operands.
#[derive(Debug, PartialEq, Eq)]
pub struct InstructionData {
    pub opcode: Opcode,
    pub operands: Vec<Operand>,
}

/// A machine instruction placed in the machine basic block `parent`.
#[derive(Debug, PartialEq, Eq)]
pub struct MachInstruction {
    pub data: InstructionData,
    pub parent: usize,
}

/// The mathematical content of a machine instruction.
pub struct MachInstView {
    pub opcode: Opcode,
    pub operands: Seq<Operand>,
    pub parent: usize,
}

impl View for MachInstruction {
    type V = MachInstView;

    open spec fn view(&self) -> MachInstView {
        MachInstView { opcode: self.data.opcode, operands: self.data.operands@, parent: self.parent }
    }
}

/// The instructions of a sequence, each by its view.
pub open spec fn insts_view(s: Seq<MachInstruction>) -> Seq<MachInstView> {
    s.map_values(|i: MachInstruction| i@)
}

impl MachInstruction {
    pub fn new(data: InstructionData, parent: usize) -> (inst: MachInstruction)
        ensures
            inst@ == (MachInstView { opcode: data.opcode, operands: data.operands@, parent }),
    {
        MachInstruction { data, parent }
    }
}

/// The move `dst <- src` placed in block `parent`.
pub open spec fn spec_move(dst: VReg, src: OperandData, parent: usize) -> MachInstView {
    MachInstView {
        opcode: Opcode::MOVrr,
        operands: seq![
            Operand { data: OperandData::VReg(dst), input: false, output: true },
            Operand { data: src, input: true, output: false },
        ],
        parent,
    }
}

/// The register file after running a sequence of moves from `regs`: each
/// move writes what its input operand holds into its output register.
/// Instructions that are not moves of that shape leave the file unchanged.
pub open spec fn run_moves(regs: Map<VReg, OperandData>, insts: Seq<MachInstView>) -> Map<
    VReg,
    OperandData,
>
    decreases insts.len(),
{
    if insts.len() == 0 {
        regs
    } else {
        let before = run_moves(regs, insts.drop_last());
        let last = insts.last();
        if last.opcode == Opcode::MOVrr && last.operands.len() == 2 && last.operands[0].output
            && last.operands[0].data is VReg && last.operands[1].input {
            before.insert(last.operands[0].data->VReg_0, last.operands[1].data)
        } else {
            before
        }
    }
}

} // verus!
