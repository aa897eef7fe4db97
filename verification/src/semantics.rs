//! A reference semantics of the IR, and what it says of lowered
//! expressions: a variable read after an assignment gives back the
//! assigned value, and an increment or decrement changes the variable by
//! one.
use vstd::prelude::*;

use crate::ast::Expression;
use crate::expression::{
    binary_parts, defined_before, extends, lemma_lower_extends, lemma_lower_ssa, lower, removable,
    slot_of, slots_defined, ssa, wf, LowerCtx,
};
use crate::ir::{Op, U32BinaryOp, U32UnaryOp, Value};

verus! {

/// What the IR leaves to the target: the address of each variable's stack
/// slot, the `u32` operators, and the called functions.
pub struct Semantics {
    pub slot_address: spec_fn(usize) -> u64,
    pub u32_binary: spec_fn(U32BinaryOp, u64, u64) -> u64,
    pub u32_unary: spec_fn(U32UnaryOp, u64) -> u64,
    pub call: spec_fn(usize, Seq<u64>) -> u64,
}

/// Memory (address to 64-bit word) and the values defined so far, one per
/// instruction (zero for a store).
pub struct State {
    pub mem: Map<u64, u64>,
    pub regs: Seq<u64>,
}

/// The word at `addr`; memory that was never written reads as zero.
pub open spec fn read(mem: Map<u64, u64>, addr: u64) -> u64 {
    if mem.contains_key(addr) {
        mem[addr]
    } else {
        0
    }
}

/// The run-time word of an IR value.
pub open spec fn value_of(v: Value, regs: Seq<u64>, sem: Semantics) -> u64 {
    match v {
        Value::Inst(i) => regs[i as int],
        Value::Const(c) => c,
        Value::Slot(pos) => (sem.slot_address)(pos),
    }
}

/// 64-bit wrapping addition and subtraction.
pub open spec fn wrapping_add(a: u64, b: u64) -> u64 {
    ((a + b) % 0x1_0000_0000_0000_0000) as u64
}

pub open spec fn wrapping_sub(a: u64, b: u64) -> u64 {
    ((a - b + 0x1_0000_0000_0000_0000) % 0x1_0000_0000_0000_0000) as u64
}

/// The state after running `op` in state `s`.
pub open spec fn step(s: State, op: Op, sem: Semantics) -> State {
    let val = |v: Value| value_of(v, s.regs, sem);
    match op {
        Op::Load(p) => State { mem: s.mem, regs: s.regs.push(read(s.mem, val(p))) },
        Op::Store { ptr, value, .. } => State {
            mem: s.mem.insert(val(ptr), val(value)),
            regs: s.regs.push(0),
        },
        Op::IntAdd(a, b) => State { mem: s.mem, regs: s.regs.push(wrapping_add(val(a), val(b))) },
        Op::IntSub(a, b) => State { mem: s.mem, regs: s.regs.push(wrapping_sub(val(a), val(b))) },
        Op::U32Binary(o, a, b) => State {
            mem: s.mem,
            regs: s.regs.push((sem.u32_binary)(o, val(a), val(b))),
        },
        Op::U32Unary(o, a) => State { mem: s.mem, regs: s.regs.push((sem.u32_unary)(o, val(a))) },
        Op::Call(k, args) => State {
            mem: s.mem,
            regs: s.regs.push((sem.call)(k, args.map_values(|v: Value| val(v)))),
        },
    }
}

/// The state after running `body` from memory `mem`.
pub open spec fn run(body: Seq<Op>, mem: Map<u64, u64>, sem: Semantics) -> State
    decreases body.len(),
{
    if body.len() == 0 {
        State { mem, regs: seq![] }
    } else {
        step(run(body.drop_last(), mem, sem), body.last(), sem)
    }
}

/// Running a body defines one value per instruction.
pub proof fn lemma_run_len(body: Seq<Op>, mem: Map<u64, u64>, sem: Semantics)
    ensures
        run(body, mem, sem).regs.len() == body.len(),
    decreases body.len(),
{
    if body.len() > 0 {
        lemma_run_len(body.drop_last(), mem, sem);
    }
}

/// Read after write: when a variable is assigned a value and then read,
/// the read gives back the assigned value (the value of the right-hand
/// side once its own code has run), whatever the right-hand side does to
/// memory, and whatever the target's operators and calls compute.
pub proof fn lemma_assign_then_read(
    pos: usize,
    r: Expression,
    c: LowerCtx,
    body: Seq<Op>,
    mem: Map<u64, u64>,
    sem: Semantics,
)
    requires
        wf(Expression::Assign(Box::new(Expression::Variable(pos)), Box::new(r)), c),
        !removable(c, Expression::Variable(pos)),
        slots_defined(c, body),
        lower(
            Expression::Assign(Box::new(Expression::Variable(pos)), Box::new(r)),
            c,
            body,
        ).0.len() < usize::MAX,
    ensures
        ({
            let (b1, _) = lower(
                Expression::Assign(Box::new(Expression::Variable(pos)), Box::new(r)),
                c,
                body,
            );
            let (b2, v) = lower(Expression::Variable(pos), c, b1);
            let (br, vr) = lower(r, c, body);
            value_of(v, run(b2, mem, sem).regs, sem) == value_of(vr, run(br, mem, sem).regs, sem)
        }),
{
    let l = Expression::Variable(pos);
    let e = Expression::Assign(Box::new(l), Box::new(r));
    let (br, vr) = lower(r, c, body);
    let p = slot_of(c, l);
    let b1 = br.push(Op::Store { ptr: p, value: vr, aligned: false });
    assert(lower(e, c, body).0 == b1);
    let b2 = b1.push(Op::Load(c.vars[pos]));
    assert(lower(l, c, b1) == (b2, Value::Inst(b1.len() as usize)));
    assert(b2.drop_last() == b1);
    assert(b1.drop_last() == br);
    lemma_run_len(br, mem, sem);
    lemma_run_len(b1, mem, sem);
    let sr = run(br, mem, sem);
    let s1 = run(b1, mem, sem);
    assert(s1 == step(sr, Op::Store { ptr: p, value: vr, aligned: false }, sem));
    lemma_lower_extends(r, c, body);
    lemma_slot_stable(c, body, br, pos, mem, sem);
    assert(read(s1.mem, value_of(p, s1.regs, sem)) == value_of(vr, sr.regs, sem));
}


/// The expression `x++` (`up`) or `x--` on the variable at `pos`.
pub open spec fn counter_expr(pos: usize, up: bool) -> Expression {
    if up {
        Expression::Increment(Box::new(Expression::Variable(pos)))
    } else {
        Expression::Decrement(Box::new(Expression::Variable(pos)))
    }
}

/// Post-increment and post-decrement: running the code of `x++` (`x--`)
/// adds (subtracts) one, wrapping at 64 bits, to the word in the variable's
/// stack slot and changes no other memory; the expression's value is the
/// slot's address.
pub proof fn lemma_counter_effect(
    pos: usize,
    up: bool,
    c: LowerCtx,
    body: Seq<Op>,
    mem: Map<u64, u64>,
    sem: Semantics,
)
    requires
        wf(counter_expr(pos, up), c),
        slots_defined(c, body),
        lower(counter_expr(pos, up), c, body).0.len() <= usize::MAX,
    ensures
        ({
            let s0 = run(body, mem, sem);
            let (b, v) = lower(counter_expr(pos, up), c, body);
            let s = run(b, mem, sem);
            let addr = value_of(c.vars[pos], s0.regs, sem);
            let old_word = read(s0.mem, addr);
            &&& s.mem == s0.mem.insert(
                addr,
                if up {
                    wrapping_add(old_word, 1)
                } else {
                    wrapping_sub(old_word, 1)
                },
            )
            &&& value_of(v, s.regs, sem) == addr
        }),
{
    let p = c.vars[pos];
    let n: nat = body.len();
    let stepop = if up {
        Op::IntAdd(Value::Inst(n as usize), Value::Const(1))
    } else {
        Op::IntSub(Value::Inst(n as usize), Value::Const(1))
    };
    let b1 = body.push(Op::Load(p));
    let b2 = b1.push(stepop);
    let b3 = b2.push(Op::Store { ptr: p, value: Value::Inst((n + 1) as usize), aligned: true });
    assert(lower(counter_expr(pos, up), c, body) == (b3, p));
    assert(b3.drop_last() == b2);
    assert(b2.drop_last() == b1);
    assert(b1.drop_last() == body);
    lemma_run_len(body, mem, sem);
    lemma_run_len(b1, mem, sem);
    lemma_run_len(b2, mem, sem);
    assert(body.subrange(0, body.len() as int) =~= body);
    assert(b1.subrange(0, body.len() as int) =~= body);
    assert(b2.subrange(0, body.len() as int) =~= body);
    lemma_slot_stable(c, body, body, pos, mem, sem);
    lemma_slot_stable(c, body, b1, pos, mem, sem);
    lemma_slot_stable(c, body, b2, pos, mem, sem);
}

/// A stack slot that is available before some code evaluates the same in
/// any state reached by running more code after it.
proof fn lemma_slot_stable(
    c: LowerCtx,
    body: Seq<Op>,
    b: Seq<Op>,
    pos: usize,
    mem: Map<u64, u64>,
    sem: Semantics,
)
    requires
        slots_defined(c, body),
        c.vars.contains_key(pos),
        body.len() <= b.len(),
        b.subrange(0, body.len() as int) == body,
    ensures
        forall|op: Op|
            value_of(c.vars[pos], #[trigger] step(run(b, mem, sem), op, sem).regs, sem) == value_of(
                c.vars[pos],
                run(b, mem, sem).regs,
                sem,
            ),
{
    lemma_run_len(b, mem, sem);
    assert(defined_before(c.vars[pos], body, body.len() as int));
}


/// Running more code keeps the values defined by the code run before.
proof fn lemma_run_prefix(b1: Seq<Op>, b2: Seq<Op>, mem: Map<u64, u64>, sem: Semantics, i: int)
    requires
        extends(b1, b2),
        0 <= i < b1.len(),
    ensures
        run(b2, mem, sem).regs[i] == run(b1, mem, sem).regs[i],
    decreases b2.len(),
{
    if b2.len() > b1.len() {
        let init = b2.drop_last();
        assert(init.subrange(0, b1.len() as int) =~= b2.subrange(0, b1.len() as int));
        lemma_run_prefix(b1, init, mem, sem, i);
        lemma_run_len(init, mem, sem);
    } else {
        assert(b2 =~= b1.subrange(0, b1.len() as int));
        assert(b2 =~= b1);
    }
}

/// A binary `u32` expression `l op r` computes the target's `op` on the
/// value of `l` (once the code of `l` has run) as its left operand and the
/// value of `r` (once the code of `r`, which follows, has run) as its right
/// operand, whatever the target's operators compute and for every kind of
/// operand (instruction result, constant or slot).
pub proof fn lemma_binary_computes(
    e: Expression,
    c: LowerCtx,
    body: Seq<Op>,
    mem: Map<u64, u64>,
    sem: Semantics,
)
    requires
        binary_parts(e) is Some,
        wf(e, c),
        ssa(body),
        slots_defined(c, body),
        lower(e, c, body).0.len() <= usize::MAX,
    ensures
        ({
            let (op, l, r) = binary_parts(e)->Some_0;
            let (b1, v1) = lower(l, c, body);
            let (b2, v2) = lower(r, c, b1);
            let (b, v) = lower(e, c, body);
            value_of(v, run(b, mem, sem).regs, sem) == (sem.u32_binary)(
                op,
                value_of(v1, run(b1, mem, sem).regs, sem),
                value_of(v2, run(b2, mem, sem).regs, sem),
            )
        }),
{
    let (op, l, r) = binary_parts(e)->Some_0;
    let (b1, v1) = lower(l, c, body);
    let (b2, v2) = lower(r, c, b1);
    let b = b2.push(Op::U32Binary(op, v1, v2));
    assert(lower(e, c, body) == (b, Value::Inst(b2.len() as usize)));
    lemma_lower_extends(l, c, body);
    lemma_lower_extends(r, c, b1);
    lemma_lower_ssa(l, c, body);
    lemma_run_len(b2, mem, sem);
    assert(b.drop_last() == b2);
    if let Value::Inst(i) = v1 {
        lemma_run_prefix(b1, b2, mem, sem, i as int);
    }
}

} // verus!
