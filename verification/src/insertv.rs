//! Lowering of the IR `insertvalue` instruction on a four-lane aggregate
//! (`[4 x i64]`) to Ola machine moves.
use std::collections::HashMap;
use vstd::prelude::*;
use vstd::std_specs::hash::group_hash_axioms;

use crate::mach::{
    insts_view, run_moves, spec_move, InstructionData, MachInstView, MachInstruction, Opcode,
    Operand, OperandData, VReg,
};

verus! {

broadcast use group_hash_axioms;

/// Number of lanes of the aggregates that `insertvalue` works on.
pub const AGGREGATE_LANES: i32 = 4;

/// Errors of a lowering step.
#[derive(Debug, PartialEq, Eq)]
pub enum LoweringError {
    /// A construct that the lowering does not handle yet, with a description.
    Todo(String),
}

/// The part of a function's lowering state that the `insertvalue` step
/// reads and extends.
pub struct LoweringContext {
    /// Machine instructions emitted so far.
    pub inst_seq: Vec<MachInstruction>,
    /// The IR block being lowered.
    pub cur_block: usize,
    /// The machine block that each IR block is lowered into.
    pub block_map: HashMap<usize, usize>,
}

/// The derived `Debug` form of an operand, as `format!` writes it.
pub uninterp spec fn operand_debug_text(op: OperandData) -> Seq<char>;

/// Calls std's `format!` with `{:?}` on the operand, which writes its
/// derived `Debug` form. The contract only names that text: std leaves the
/// exact `Debug` output unspecified.
#[verifier::external_body]
fn operand_debug(op: &OperandData) -> (text: String)
    ensures
        text@ == operand_debug_text(*op),
{
    format!("{:?}", op)
}

/// The message prefix of an unsupported index operand.
pub open spec fn unsupported_index_prefix() -> Seq<char> {
    "Unsupported inserttvalue idx operand: "@
}

/// The error message for an index operand that is not a 32-bit immediate:
/// the prefix, then the operand's `Debug` form.
fn unsupported_index_message(op: &OperandData) -> (msg: String)
    ensures
        msg@ == unsupported_index_prefix() + operand_debug_text(*op),
{
    let mut msg = String::from_str("Unsupported inserttvalue idx operand: ");
    let text = operand_debug(op);
    msg.append(text.as_str());
    msg
}

/// Lane `lane` of the aggregate after inserting `op_value` at `idx`: the
/// inserted value where the lane is the index, the old lane elsewhere.
pub open spec fn inserted_lane(
    value: Seq<OperandData>,
    op_value: OperandData,
    idx: int,
    lane: int,
) -> OperandData {
    if lane == idx {
        op_value
    } else {
        value[lane]
    }
}

/// The moves that lower `insertvalue`: lane `i` of the result register
/// group receives lane `i` of the inserted aggregate, for the four lanes in
/// order, all in machine block `block`.
pub open spec fn insertvalue_moves(
    value: Seq<OperandData>,
    op_value: OperandData,
    idx: int,
    output: Seq<VReg>,
    block: usize,
) -> Seq<MachInstView> {
    Seq::new(
        AGGREGATE_LANES as nat,
        |i: int| spec_move(output[i], inserted_lane(value, op_value, idx, i), block),
    )
}

/// The lanes that the lowering reads exist: every lane of the result, and
/// every lane of the aggregate that is not overwritten (so the aggregate may
/// lack only its last lane, and only when that lane is the one replaced).
pub open spec fn lanes_present(value_len: int, output_len: int, op_idx: OperandData) -> bool {
    op_idx matches OperandData::Int32(idx) ==> {
        &&& output_len >= AGGREGATE_LANES
        &&& (value_len >= AGGREGATE_LANES || (value_len == AGGREGATE_LANES - 1 && idx
            == AGGREGATE_LANES - 1))
    }
}

/// Lowers `insertvalue` of `op_value` into the aggregate held in the lanes
/// `value`, at the index held in `op_idx`, into the result registers
/// `output`: appends one move per lane to `ctx.inst_seq`, in the machine
/// block of the current IR block. Only a 32-bit immediate index is
/// supported; any other index operand is refused with `LoweringError::Todo`
/// and nothing is emitted. An index outside the four lanes copies the
/// aggregate unchanged.
pub fn lower_insertvalue(
    ctx: &mut LoweringContext,
    value: &Vec<OperandData>,
    op_value: OperandData,
    op_idx: OperandData,
    output: &Vec<VReg>,
) -> (res: Result<(), LoweringError>)
    requires
        lanes_present(value.len() as int, output.len() as int, op_idx),
        op_idx is Int32 ==> old(ctx).block_map@.contains_key(old(ctx).cur_block),
    ensures
        final(ctx).cur_block == old(ctx).cur_block,
        final(ctx).block_map@ == old(ctx).block_map@,
        match op_idx {
            OperandData::Int32(idx) => {
                &&& res is Ok
                &&& insts_view(final(ctx).inst_seq@) == insts_view(old(ctx).inst_seq@)
                    + insertvalue_moves(
                    value@,
                    op_value,
                    idx as int,
                    output@,
                    old(ctx).block_map@[old(ctx).cur_block],
                )
            },
            _ => {
                &&& res matches Err(LoweringError::Todo(msg))
                &&& msg@ == unsupported_index_prefix() + operand_debug_text(op_idx)
                &&& final(ctx).inst_seq@ == old(ctx).inst_seq@
            },
        },
{
    let idx: i32 = match op_idx {
        OperandData::Int32(i) => i,
        _ => {
            return Err(LoweringError::Todo(unsupported_index_message(&op_idx)));
        },
    };
    let block: usize = *ctx.block_map.get(&ctx.cur_block).unwrap();
    let ghost old_view = insts_view(ctx.inst_seq@);
    let ghost moves = insertvalue_moves(value@, op_value, idx as int, output@, block);
    let mut ist_idx: i32 = 0;
    while ist_idx < AGGREGATE_LANES
        invariant
            0 <= ist_idx <= AGGREGATE_LANES,
            lanes_present(value.len() as int, output.len() as int, op_idx),
            op_idx == OperandData::Int32(idx),
            moves == insertvalue_moves(value@, op_value, idx as int, output@, block),
            insts_view(ctx.inst_seq@) == old_view + moves.take(ist_idx as int),
            ctx.cur_block == old(ctx).cur_block,
            ctx.block_map@ == old(ctx).block_map@,
        decreases AGGREGATE_LANES - ist_idx,
    {
        let input = if ist_idx == idx {
            op_value
        } else {
            value[ist_idx as usize]
        };
        let mut operands: Vec<Operand> = Vec::new();
        operands.push(Operand::output(OperandData::VReg(output[ist_idx as usize])));
        operands.push(Operand::input(input));
        let inst = MachInstruction::new(InstructionData { opcode: Opcode::MOVrr, operands }, block);
        let ghost before = ctx.inst_seq@;
        ctx.inst_seq.push(inst);
        proof {
            assert(input == inserted_lane(value@, op_value, idx as int, ist_idx as int));
            assert(inst@.operands =~= moves[ist_idx as int].operands);
            assert(inst@ == moves[ist_idx as int]);
            assert(insts_view(before.push(inst)) =~= insts_view(before).push(inst@));
            assert(moves.take(ist_idx + 1) =~= moves.take(ist_idx as int).push(moves[ist_idx as int]));
        }
        ist_idx = ist_idx + 1;
    }
    proof {
        assert(moves.take(AGGREGATE_LANES as int) =~= moves);
    }
    Ok(())
}

/// Reading a lane back after `insertvalue`: whatever the registers held
/// before, once the moves of an `insertvalue` have run, lane `lane` of the
/// result registers holds `op_value` when `lane` is the index and
/// `value[lane]`, the aggregate's own lane, for every other lane, provided
/// the four result registers are distinct.
pub proof fn lemma_insertvalue_then_extract(
    regs: Map<VReg, OperandData>,
    value: Seq<OperandData>,
    op_value: OperandData,
    idx: int,
    output: Seq<VReg>,
    block: usize,
    lane: int,
)
    requires
        output.len() >= AGGREGATE_LANES,
        forall|i: int, j: int|
            0 <= i < AGGREGATE_LANES && 0 <= j < AGGREGATE_LANES && i != j ==> output[i]
                != output[j],
        0 <= lane < AGGREGATE_LANES,
    ensures
        run_moves(regs, insertvalue_moves(value, op_value, idx, output, block))[output[lane]]
            == inserted_lane(value, op_value, idx, lane),
        run_moves(regs, insertvalue_moves(value, op_value, idx, output, block)).contains_key(
            output[lane],
        ),
        lane == idx ==> run_moves(regs, insertvalue_moves(value, op_value, idx, output, block))[output[lane]]
            == op_value,
        lane != idx ==> run_moves(regs, insertvalue_moves(value, op_value, idx, output, block))[output[lane]]
            == value[lane],
{
    let moves = insertvalue_moves(value, op_value, idx, output, block);
    lemma_run_moves_prefix(regs, value, op_value, idx, output, block, AGGREGATE_LANES as int, lane);
    assert(moves.take(AGGREGATE_LANES as int) =~= moves);
}

proof fn lemma_run_moves_prefix(
    regs: Map<VReg, OperandData>,
    value: Seq<OperandData>,
    op_value: OperandData,
    idx: int,
    output: Seq<VReg>,
    block: usize,
    n: int,
    lane: int,
)
    requires
        output.len() >= AGGREGATE_LANES,
        forall|i: int, j: int|
            0 <= i < AGGREGATE_LANES && 0 <= j < AGGREGATE_LANES && i != j ==> output[i]
                != output[j],
        0 <= lane < n <= AGGREGATE_LANES,
    ensures
        run_moves(regs, insertvalue_moves(value, op_value, idx, output, block).take(n)).contains_key(
            output[lane],
        ),
        run_moves(regs, insertvalue_moves(value, op_value, idx, output, block).take(n))[output[lane]]
            == inserted_lane(value, op_value, idx, lane),
    decreases n,
{
    let moves = insertvalue_moves(value, op_value, idx, output, block);
    let prefix = moves.take(n);
    assert(prefix.drop_last() =~= moves.take(n - 1));
    assert(prefix.last() == spec_move(output[n - 1], inserted_lane(value, op_value, idx, n - 1), block));
    if lane < n - 1 {
        lemma_run_moves_prefix(regs, value, op_value, idx, output, block, n - 1, lane);
    }
}

} // verus!
