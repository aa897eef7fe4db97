use std::collections::HashMap;

use ola_lang::insertv::{lower_insertvalue, LoweringContext, LoweringError};
use ola_lang::mach::{InstructionData, MachInstruction, Opcode, Operand, OperandData, VReg};

fn context(block: usize) -> LoweringContext {
    let mut block_map = HashMap::new();
    block_map.insert(0usize, block);
    LoweringContext { inst_seq: Vec::new(), cur_block: 0, block_map }
}

fn mov(dst: u32, src: OperandData, block: usize) -> MachInstruction {
    MachInstruction::new(
        InstructionData {
            opcode: Opcode::MOVrr,
            operands: vec![Operand::output(OperandData::VReg(VReg(dst))), Operand::input(src)],
        },
        block,
    )
}

fn lanes() -> Vec<OperandData> {
    vec![
        OperandData::Int64(10),
        OperandData::Int64(20),
        OperandData::Int64(30),
        OperandData::Int64(40),
    ]
}

fn outputs() -> Vec<VReg> {
    vec![VReg(1), VReg(2), VReg(3), VReg(4)]
}

/// Reads back the register file after running the emitted moves.
fn run(insts: &[MachInstruction]) -> HashMap<VReg, OperandData> {
    let mut regs = HashMap::new();
    for inst in insts {
        assert_eq!(inst.data.opcode, Opcode::MOVrr);
        if let OperandData::VReg(r) = inst.data.operands[0].data {
            regs.insert(r, inst.data.operands[1].data);
        }
    }
    regs
}

// `insertvalue [4 x i64] [10, 20, 30, 40], %2, 2`, then `extractvalue` at 2.
#[test]
fn insertvalue_replaces_the_indexed_lane() {
    let mut ctx = context(10);
    let inserted = OperandData::VReg(VReg(0));
    let res = lower_insertvalue(&mut ctx, &lanes(), inserted, OperandData::Int32(2), &outputs());
    assert_eq!(res, Ok(()));
    assert_eq!(
        ctx.inst_seq,
        vec![
            mov(1, OperandData::Int64(10), 10),
            mov(2, OperandData::Int64(20), 10),
            mov(3, inserted, 10),
            mov(4, OperandData::Int64(40), 10),
        ]
    );
    let regs = run(&ctx.inst_seq);
    assert_eq!(regs[&VReg(3)], inserted);
    assert_eq!(regs[&VReg(1)], OperandData::Int64(10));
    assert_eq!(regs[&VReg(4)], OperandData::Int64(40));
}

#[test]
fn insertvalue_first_and_last_lane() {
    for idx in [0i32, 3] {
        let mut ctx = context(7);
        let res =
            lower_insertvalue(&mut ctx, &lanes(), OperandData::Int64(99), OperandData::Int32(idx), &outputs());
        assert_eq!(res, Ok(()));
        let regs = run(&ctx.inst_seq);
        for lane in 0..4usize {
            let expected = if lane as i32 == idx { OperandData::Int64(99) } else { lanes()[lane] };
            assert_eq!(regs[&VReg(lane as u32 + 1)], expected);
        }
        assert!(ctx.inst_seq.iter().all(|i| i.parent == 7));
    }
}

#[test]
fn insertvalue_index_outside_the_lanes_copies_the_aggregate() {
    for idx in [4i32, -1, 100] {
        let mut ctx = context(0);
        let res =
            lower_insertvalue(&mut ctx, &lanes(), OperandData::Int64(99), OperandData::Int32(idx), &outputs());
        assert_eq!(res, Ok(()));
        assert_eq!(ctx.inst_seq.len(), 4);
        let regs = run(&ctx.inst_seq);
        for lane in 0..4usize {
            assert_eq!(regs[&VReg(lane as u32 + 1)], lanes()[lane]);
        }
    }
}

#[test]
fn insertvalue_last_lane_missing_is_accepted_when_replaced() {
    let mut ctx = context(0);
    let three = vec![OperandData::Int64(1), OperandData::Int64(2), OperandData::Int64(3)];
    let res = lower_insertvalue(&mut ctx, &three, OperandData::Int64(4), OperandData::Int32(3), &outputs());
    assert_eq!(res, Ok(()));
    let regs = run(&ctx.inst_seq);
    assert_eq!(regs[&VReg(4)], OperandData::Int64(4));
}

#[test]
fn insertvalue_appends_after_earlier_instructions() {
    let mut ctx = context(2);
    ctx.inst_seq.push(mov(9, OperandData::Int64(5), 2));
    let res = lower_insertvalue(&mut ctx, &lanes(), OperandData::Int64(7), OperandData::Int32(1), &outputs());
    assert_eq!(res, Ok(()));
    assert_eq!(ctx.inst_seq.len(), 5);
    assert_eq!(ctx.inst_seq[0], mov(9, OperandData::Int64(5), 2));
    assert_eq!(ctx.inst_seq[2], mov(2, OperandData::Int64(7), 2));
}

#[test]
fn insertvalue_non_immediate_index_is_refused() {
    let mut ctx = context(0);
    let res = lower_insertvalue(&mut ctx, &lanes(), OperandData::Int64(1), OperandData::Int64(2), &outputs());
    assert_eq!(
        res,
        Err(LoweringError::Todo("Unsupported inserttvalue idx operand: Int64(2)".to_string()))
    );
    assert!(ctx.inst_seq.is_empty());

    let res = lower_insertvalue(
        &mut ctx,
        &lanes(),
        OperandData::Int64(1),
        OperandData::VReg(VReg(8)),
        &outputs(),
    );
    assert_eq!(
        res,
        Err(LoweringError::Todo("Unsupported inserttvalue idx operand: VReg(VReg(8))".to_string()))
    );
    assert!(ctx.inst_seq.is_empty());
}
