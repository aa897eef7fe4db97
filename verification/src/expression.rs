//! Lowering of resolved expressions to IR instructions.
use std::collections::HashMap;
use vstd::prelude::*;
use vstd::std_specs::hash::group_hash_axioms;

use crate::ast::{
    should_remove_assignment, spec_should_remove_assignment, Expression, Function, LibFunc,
    Namespace,
};
use crate::ir::{
    ops, spec_get_function, Binary, Inst, ModuleFunction, Op, U32BinaryOp, U32UnaryOp, Value,
};

verus! {

broadcast use group_hash_axioms;

/// What expression lowering reads besides the expression: the dead
/// variables of the current function (if there is one), the variables'
/// stack slots, the names of the namespace's functions, and the functions
/// declared in the module.
pub struct LowerCtx {
    pub unused: Option<Seq<usize>>,
    pub vars: Map<usize, Value>,
    pub callees: Seq<Seq<char>>,
    pub module: Seq<ModuleFunction>,
}

/// The lowering context of the arguments that `expression` takes.
pub open spec fn lower_ctx(
    func: Option<&Function>,
    vars: Map<usize, Value>,
    ns: Namespace,
    module: Seq<ModuleFunction>,
) -> LowerCtx {
    LowerCtx {
        unused: match func {
            Some(f) => Some(f.unused_variables@),
            None => None,
        },
        vars,
        callees: ns.functions@.map_values(|f: Function| f.name@),
        module,
    }
}

/// The name of the library function that computes a `u32` square root.
pub open spec fn u32_sqrt_name() -> Seq<char> {
    seq!['u', '3', '2', '_', 's', 'q', 'r', 't']
}

/// The operator and operands of a binary `u32` expression.
pub open spec fn binary_parts(e: Expression) -> Option<(U32BinaryOp, Expression, Expression)> {
    match e {
        Expression::Add(l, r) => Some((U32BinaryOp::Add, *l, *r)),
        Expression::Subtract(l, r) => Some((U32BinaryOp::Subtract, *l, *r)),
        Expression::Multiply(l, r) => Some((U32BinaryOp::Multiply, *l, *r)),
        Expression::Divide(l, r) => Some((U32BinaryOp::Divide, *l, *r)),
        Expression::Modulo(l, r) => Some((U32BinaryOp::Modulo, *l, *r)),
        Expression::BitwiseOr(l, r) => Some((U32BinaryOp::BitwiseOr, *l, *r)),
        Expression::BitwiseAnd(l, r) => Some((U32BinaryOp::BitwiseAnd, *l, *r)),
        Expression::BitwiseXor(l, r) => Some((U32BinaryOp::BitwiseXor, *l, *r)),
        Expression::ShiftLeft(l, r) => Some((U32BinaryOp::ShiftLeft, *l, *r)),
        Expression::ShiftRight(l, r) => Some((U32BinaryOp::ShiftRight, *l, *r)),
        Expression::Equal(l, r) => Some((U32BinaryOp::Equal, *l, *r)),
        Expression::NotEqual(l, r) => Some((U32BinaryOp::NotEqual, *l, *r)),
        Expression::More(l, r) => Some((U32BinaryOp::More, *l, *r)),
        Expression::MoreEqual(l, r) => Some((U32BinaryOp::MoreEqual, *l, *r)),
        Expression::Less(l, r) => Some((U32BinaryOp::Less, *l, *r)),
        Expression::LessEqual(l, r) => Some((U32BinaryOp::LessEqual, *l, *r)),
        Expression::Or(l, r) => Some((U32BinaryOp::Or, *l, *r)),
        Expression::And(l, r) => Some((U32BinaryOp::And, *l, *r)),
        Expression::Power(l, r) => Some((U32BinaryOp::Power, *l, *r)),
        _ => None,
    }
}

/// The assignment `left = ...` is dropped as dead in the current function.
pub open spec fn removable(c: LowerCtx, left: Expression) -> bool {
    match c.unused {
        Some(unused) => spec_should_remove_assignment(left, unused),
        None => false,
    }
}

/// `e` is a variable with a stack slot.
pub open spec fn is_slot_variable(c: LowerCtx, e: Expression) -> bool {
    match e {
        Expression::Variable(pos) => c.vars.contains_key(pos),
        _ => false,
    }
}

/// The stack slot of the variable `e`.
pub open spec fn slot_of(c: LowerCtx, e: Expression) -> Value {
    match e {
        Expression::Variable(pos) => c.vars[pos],
        _ => Value::Const(0),
    }
}

/// The module function that a call of namespace function `no` resolves to.
pub open spec fn callee_of(c: LowerCtx, no: usize) -> Option<int> {
    spec_get_function(c.module, c.callees[no as int])
}

/// `e` can be lowered: every variable it reads or writes has a stack slot,
/// every operand of an increment, decrement or live assignment is a
/// variable, every called namespace function exists, and every callee
/// found in the module yields a value.
pub open spec fn wf(e: Expression, c: LowerCtx) -> bool
    decreases e, 1nat,
{
    match binary_parts(e) {
        Some((_, l, r)) => wf(l, c) && wf(r, c),
        None => match e {
            Expression::Not(x) => wf(*x, c),
            Expression::BitwiseNot(x) => wf(*x, c),
            Expression::Decrement(x) => is_slot_variable(c, *x),
            Expression::Increment(x) => is_slot_variable(c, *x),
            Expression::Assign(l, r) => wf(*r, c) && (removable(c, *l) || is_slot_variable(c, *l)),
            Expression::FunctionCall { function, args } => match *function {
                Expression::Function(no) => {
                    &&& no < c.callees.len()
                    &&& callee_of(c, no) matches Some(k) ==> {
                        &&& c.module[k].returns_value
                        &&& wf_args(args@, c)
                    }
                },
                _ => true,
            },
            Expression::NumberLiteral(_) => true,
            Expression::Variable(pos) => c.vars.contains_key(pos),
            Expression::LibFunction(LibFunc::U32Sqrt, args) => {
                &&& args.len() >= 1
                &&& wf(args@[0], c)
                &&& spec_get_function(c.module, u32_sqrt_name()) matches Some(k)
                &&& c.module[k].returns_value
            },
            _ => false,
        },
    }
}

/// Every expression of `args` can be lowered.
pub open spec fn wf_args(args: Seq<Expression>, c: LowerCtx) -> bool
    decreases args, 0nat,
{
    if args.len() == 0 {
        true
    } else {
        wf_args(args.subrange(0, args.len() - 1), c) && wf(args[args.len() - 1], c)
    }
}

/// Appends `op` to `body`; the value is the one `op` defines.
pub open spec fn emit_op(body: Seq<Op>, op: Op) -> (Seq<Op>, Value) {
    (body.push(op), Value::Inst(body.len() as usize))
}

/// Post-increment (`up`) or post-decrement of the variable with slot `p`:
/// load the variable, add or subtract one, store the result back; the
/// expression's value is the slot itself.
pub open spec fn counter_update(body: Seq<Op>, p: Value, up: bool) -> (Seq<Op>, Value) {
    let n: nat = body.len();
    let step = if up {
        Op::IntAdd(Value::Inst(n as usize), Value::Const(1))
    } else {
        Op::IntSub(Value::Inst(n as usize), Value::Const(1))
    };
    (
        body.push(Op::Load(p)).push(step).push(
            Op::Store { ptr: p, value: Value::Inst((n + 1) as usize), aligned: true },
        ),
        p,
    )
}

/// The body after lowering `e` at the end of `body`, and the value of `e`.
pub open spec fn lower(e: Expression, c: LowerCtx, body: Seq<Op>) -> (Seq<Op>, Value)
    decreases e, 1nat,
{
    match binary_parts(e) {
        Some((op, l, r)) => {
            let (b1, v1) = lower(l, c, body);
            let (b2, v2) = lower(r, c, b1);
            emit_op(b2, Op::U32Binary(op, v1, v2))
        },
        None => match e {
            Expression::Not(x) => {
                let (b1, v1) = lower(*x, c, body);
                emit_op(b1, Op::U32Unary(U32UnaryOp::Not, v1))
            },
            Expression::BitwiseNot(x) => {
                let (b1, v1) = lower(*x, c, body);
                emit_op(b1, Op::U32Unary(U32UnaryOp::BitwiseNot, v1))
            },
            Expression::Decrement(x) => counter_update(body, slot_of(c, *x), false),
            Expression::Increment(x) => counter_update(body, slot_of(c, *x), true),
            Expression::Assign(l, r) => {
                if removable(c, *l) {
                    lower(*r, c, body)
                } else {
                    let (b1, v1) = lower(*r, c, body);
                    let p = slot_of(c, *l);
                    (b1.push(Op::Store { ptr: p, value: v1, aligned: false }), p)
                }
            },
            Expression::FunctionCall { .. } => lower_call(e, c, body),
            Expression::NumberLiteral(n) => (body, Value::Const(n)),
            Expression::Variable(pos) => emit_op(body, Op::Load(c.vars[pos])),
            Expression::LibFunction(LibFunc::U32Sqrt, args) => {
                if args.len() >= 1 {
                    let (b1, v1) = lower(args@[0], c, body);
                    let k = spec_get_function(c.module, u32_sqrt_name())->Some_0;
                    emit_op(b1, Op::Call(k as usize, seq![v1]))
                } else {
                    (body, Value::Const(0))
                }
            },
            _ => (body, Value::Const(0)),
        },
    }
}

/// Lowering of a call: when the callee is a namespace function that the
/// module declares, the arguments in order, then the call, whose result is
/// the value; otherwise nothing, and the value is the constant zero.
pub open spec fn lower_call(e: Expression, c: LowerCtx, body: Seq<Op>) -> (Seq<Op>, Value)
    decreases e, 0nat,
{
    match e {
        Expression::FunctionCall { function, args } => match *function {
            Expression::Function(no) => match callee_of(c, no) {
                Some(k) => {
                    let (b1, vs) = lower_args(args@, c, body);
                    emit_op(b1, Op::Call(k as usize, vs))
                },
                None => (body, Value::Const(0)),
            },
            _ => (body, Value::Const(0)),
        },
        _ => (body, Value::Const(0)),
    }
}

/// Lowering of `args` one after the other, with their values in order.
pub open spec fn lower_args(args: Seq<Expression>, c: LowerCtx, body: Seq<Op>) -> (
    Seq<Op>,
    Seq<Value>,
)
    decreases args, 0nat,
{
    if args.len() == 0 {
        (body, seq![])
    } else {
        let (b1, vs) = lower_args(args.subrange(0, args.len() - 1), c, body);
        let (b2, v) = lower(args[args.len() - 1], c, b1);
        (b2, vs.push(v))
    }
}


/// The operator and operands of a binary `u32` expression, if `expr` is one.
fn u32_binary_operands<'e>(expr: &'e Expression) -> (res: Option<(U32BinaryOp, &'e Expression, &'e Expression)>)
    ensures
        match res {
            Some((op, l, r)) => binary_parts(*expr) == Some((op, *l, *r)),
            None => binary_parts(*expr) is None,
        },
{
    match expr {
        Expression::Add(l, r) => Some((U32BinaryOp::Add, &**l, &**r)),
        Expression::Subtract(l, r) => Some((U32BinaryOp::Subtract, &**l, &**r)),
        Expression::Multiply(l, r) => Some((U32BinaryOp::Multiply, &**l, &**r)),
        Expression::Divide(l, r) => Some((U32BinaryOp::Divide, &**l, &**r)),
        Expression::Modulo(l, r) => Some((U32BinaryOp::Modulo, &**l, &**r)),
        Expression::BitwiseOr(l, r) => Some((U32BinaryOp::BitwiseOr, &**l, &**r)),
        Expression::BitwiseAnd(l, r) => Some((U32BinaryOp::BitwiseAnd, &**l, &**r)),
        Expression::BitwiseXor(l, r) => Some((U32BinaryOp::BitwiseXor, &**l, &**r)),
        Expression::ShiftLeft(l, r) => Some((U32BinaryOp::ShiftLeft, &**l, &**r)),
        Expression::ShiftRight(l, r) => Some((U32BinaryOp::ShiftRight, &**l, &**r)),
        Expression::Equal(l, r) => Some((U32BinaryOp::Equal, &**l, &**r)),
        Expression::NotEqual(l, r) => Some((U32BinaryOp::NotEqual, &**l, &**r)),
        Expression::More(l, r) => Some((U32BinaryOp::More, &**l, &**r)),
        Expression::MoreEqual(l, r) => Some((U32BinaryOp::MoreEqual, &**l, &**r)),
        Expression::Less(l, r) => Some((U32BinaryOp::Less, &**l, &**r)),
        Expression::LessEqual(l, r) => Some((U32BinaryOp::LessEqual, &**l, &**r)),
        Expression::Or(l, r) => Some((U32BinaryOp::Or, &**l, &**r)),
        Expression::And(l, r) => Some((U32BinaryOp::And, &**l, &**r)),
        Expression::Power(l, r) => Some((U32BinaryOp::Power, &**l, &**r)),
        _ => None,
    }
}

/// The stack slot of the variable at `pos`.
fn slot(var_table: &HashMap<usize, Value>, pos: usize) -> (v: Value)
    requires
        var_table@.contains_key(pos),
    ensures
        v == var_table@[pos],
{
    *var_table.get(&pos).unwrap()
}

/// Whether `var_table` gives `e` a stack slot as a variable.
fn has_slot(e: &Expression, var_table: &HashMap<usize, Value>) -> (res: bool)
    ensures
        res == (match *e {
            Expression::Variable(pos) => var_table@.contains_key(pos),
            _ => false,
        }),
{
    match e {
        Expression::Variable(pos) => var_table.contains_key(pos),
        _ => false,
    }
}

/// Decides whether `expr` can be lowered in this context (`wf`), which is
/// what `expression` requires.
pub fn can_lower(
    expr: &Expression,
    bin: &Binary,
    func: Option<&Function>,
    var_table: &HashMap<usize, Value>,
    ns: &Namespace,
) -> (res: bool)
    ensures
        res == wf(*expr, lower_ctx(func, var_table@, *ns, bin.functions@)),
    decreases expr, 1nat,
{
    let ghost c = lower_ctx(func, var_table@, *ns, bin.functions@);
    if let Some((_, l, r)) = u32_binary_operands(expr) {
        return can_lower(l, bin, func, var_table, ns) && can_lower(r, bin, func, var_table, ns);
    }
    match expr {
        Expression::Not(x) => can_lower(x, bin, func, var_table, ns),
        Expression::BitwiseNot(x) => can_lower(x, bin, func, var_table, ns),
        Expression::Decrement(x) => has_slot(x, var_table),
        Expression::Increment(x) => has_slot(x, var_table),
        Expression::Assign(l, r) => {
            let dead = match func {
                Some(function) => should_remove_assignment(l, function),
                None => false,
            };
            can_lower(r, bin, func, var_table, ns) && (dead || has_slot(l, var_table))
        },
        Expression::FunctionCall { function, args } => match &**function {
            Expression::Function(function_no) => {
                if *function_no >= ns.functions.len() {
                    return false;
                }
                let callee = &ns.functions[*function_no];
                proof {
                    assert(c.callees[*function_no as int] == callee.name@);
                }
                match bin.get_function(&callee.name) {
                    Some(k) => {
                        if !bin.functions[k].returns_value {
                            return false;
                        }
                        let mut ok = true;
                        let mut i: usize = 0;
                        #[verifier::loop_isolation(false)]
                        while i < args.len()
                            invariant
                                i <= args.len(),
                                ok == wf_args(args@.take(i as int), c),
                            decreases args.len() - i,
                        {
                            proof {
                                assert(args@.take(i + 1).subrange(0, i as int) =~= args@.take(i as int));
                                assert(decreases_to!(*expr => *args));
                                assert(decreases_to!(*args => args@));
                                assert(decreases_to!(args@ => args@[i as int]));
                            }
                            let arg_ok = can_lower(&args[i], bin, func, var_table, ns);
                            ok = ok && arg_ok;
                            i = i + 1;
                        }
                        proof {
                            assert(args@.take(args.len() as int) =~= args@);
                        }
                        ok
                    },
                    None => true,
                }
            },
            _ => true,
        },
        Expression::NumberLiteral(_) => true,
        Expression::Variable(pos) => var_table.contains_key(pos),
        Expression::LibFunction(LibFunc::U32Sqrt, args) => {
            if args.len() < 1 || !can_lower(&args[0], bin, func, var_table, ns) {
                return false;
            }
            let name = String::from_str("u32_sqrt");
            proof {
                reveal_strlit("u32_sqrt");
                assert(name@ =~= u32_sqrt_name());
            }
            match bin.get_function(&name) {
                Some(k) => bin.functions[k].returns_value,
                None => false,
            }
        },
        _ => false,
    }
}

/// Lowers `expr` at the end of `bin.body` and returns its value: exactly
/// the instructions and value of `lower` (see there for each form). The
/// module's functions and the variable table are left as they are.
pub fn expression(
    expr: &Expression,
    bin: &mut Binary,
    func: Option<&Function>,
    var_table: &mut HashMap<usize, Value>,
    ns: &Namespace,
) -> (res: Value)
    requires
        wf(*expr, lower_ctx(func, old(var_table)@, *ns, old(bin).functions@)),
    ensures
        final(bin).functions@ == old(bin).functions@,
        final(var_table)@ == old(var_table)@,
        (ops(final(bin).body@), res) == lower(
            *expr,
            lower_ctx(func, old(var_table)@, *ns, old(bin).functions@),
            ops(old(bin).body@),
        ),
    decreases expr, 1nat,
{
    if let Some((op, l, r)) = u32_binary_operands(expr) {
        let left = expression(l, bin, func, var_table, ns);
        let right = expression(r, bin, func, var_table, ns);
        return bin.emit(Inst::U32Binary(op, left, right));
    }
    match expr {
        Expression::Not(x) => {
            let v = expression(x, bin, func, var_table, ns);
            bin.emit(Inst::U32Unary(U32UnaryOp::Not, v))
        },
        Expression::BitwiseNot(x) => {
            let v = expression(x, bin, func, var_table, ns);
            bin.emit(Inst::U32Unary(U32UnaryOp::BitwiseNot, v))
        },
        Expression::Decrement(x) => match &**x {
            Expression::Variable(pos) => {
                let before_ptr = slot(var_table, *pos);
                let before_val = bin.emit(Inst::Load(before_ptr));
                let after = bin.emit(Inst::IntSub(before_val, Value::Const(1)));
                bin.emit(Inst::Store { ptr: before_ptr, value: after, aligned: true });
                before_ptr
            },
            _ => vstd::pervasive::unreached(),
        },
        Expression::Increment(x) => match &**x {
            Expression::Variable(pos) => {
                let before_ptr = slot(var_table, *pos);
                let before_val = bin.emit(Inst::Load(before_ptr));
                let after = bin.emit(Inst::IntAdd(before_val, Value::Const(1)));
                bin.emit(Inst::Store { ptr: before_ptr, value: after, aligned: true });
                before_ptr
            },
            _ => vstd::pervasive::unreached(),
        },
        Expression::Assign(l, r) => {
            if let Some(function) = func {
                if should_remove_assignment(l, function) {
                    return expression(r, bin, func, var_table, ns);
                }
            }
            let right = expression(r, bin, func, var_table, ns);
            let left = match &**l {
                Expression::Variable(pos) => slot(var_table, *pos),
                _ => vstd::pervasive::unreached(),
            };
            bin.emit(Inst::Store { ptr: left, value: right, aligned: false });
            left
        },
        Expression::FunctionCall { .. } => emit_function_call(expr, bin, func, var_table, ns),
        Expression::NumberLiteral(n) => Value::Const(*n),
        Expression::Variable(pos) => {
            let ptr = slot(var_table, *pos);
            bin.emit(Inst::Load(ptr))
        },
        Expression::LibFunction(LibFunc::U32Sqrt, args) => {
            let value = expression(&args[0], bin, func, var_table, ns);
            let name = String::from_str("u32_sqrt");
            proof {
                reveal_strlit("u32_sqrt");
                assert(name@ =~= u32_sqrt_name());
            }
            let sqrt: usize = match bin.get_function(&name) {
                Some(k) => k,
                None => vstd::pervasive::unreached(),
            };
            let mut call_args: Vec<Value> = Vec::new();
            call_args.push(value);
            proof {
                assert(call_args@ =~= seq![value]);
            }
            bin.emit(Inst::Call(sqrt, call_args))
        },
        _ => vstd::pervasive::unreached(),
    }
}

/// Lowers the call `expr`: when it names a namespace function that the
/// module declares, its arguments in order and then the call, whose result
/// is the value; otherwise it emits nothing and the value is the constant
/// zero. Exactly the instructions and value of `lower_call`.
pub fn emit_function_call(
    expr: &Expression,
    bin: &mut Binary,
    func: Option<&Function>,
    var_table: &mut HashMap<usize, Value>,
    ns: &Namespace,
) -> (res: Value)
    requires
        expr is FunctionCall,
        wf(*expr, lower_ctx(func, old(var_table)@, *ns, old(bin).functions@)),
    ensures
        final(bin).functions@ == old(bin).functions@,
        final(var_table)@ == old(var_table)@,
        (ops(final(bin).body@), res) == lower_call(
            *expr,
            lower_ctx(func, old(var_table)@, *ns, old(bin).functions@),
            ops(old(bin).body@),
        ),
    decreases expr, 0nat,
{
    let ghost c = lower_ctx(func, var_table@, *ns, bin.functions@);
    let ghost body0 = ops(bin.body@);
    let mut ret_value = Value::Const(0);
    match expr {
        Expression::FunctionCall { function, args } => {
            if let Expression::Function(function_no) = &**function {
                let callee = &ns.functions[*function_no];
                proof {
                    assert(c.callees[*function_no as int] == callee.name@);
                }
                if let Some(callee_value) = bin.get_function(&callee.name) {
                    let mut params: Vec<Value> = Vec::new();
                    let mut i: usize = 0;
                    #[verifier::loop_isolation(false)]
                    while i < args.len()
                        invariant
                            i <= args.len(),
                            c == lower_ctx(func, var_table@, *ns, bin.functions@),
                            wf_args(args@, c),
                            (ops(bin.body@), params@) == lower_args(args@.take(i as int), c, body0),
                        decreases args.len() - i,
                    {
                        proof {
                            lemma_wf_args_each(args@, c, i as int);
                            assert(args@.take(i + 1).subrange(0, i as int) =~= args@.take(i as int));
                            assert(decreases_to!(*expr => args@[i as int]));
                        }
                        let v = expression(&args[i], bin, func, var_table, ns);
                        params.push(v);
                        i = i + 1;
                    }
                    proof {
                        assert(args@.take(args.len() as int) =~= args@);
                    }
                    ret_value = bin.emit(Inst::Call(callee_value, params));
                }
            }
            ret_value
        },
        _ => vstd::pervasive::unreached(),
    }
}

/// Each expression of `args` can be lowered when all of them can.
proof fn lemma_wf_args_each(args: Seq<Expression>, c: LowerCtx, i: int)
    requires
        wf_args(args, c),
        0 <= i < args.len(),
    ensures
        wf(args[i], c),
    decreases args.len(),
{
    if i < args.len() - 1 {
        lemma_wf_args_each(args.subrange(0, args.len() - 1), c, i);
    }
}


/// `v` is available at position `n` of `body`: an instruction result
/// defined by an earlier instruction that defines a value, or a constant or
/// a stack slot.
pub open spec fn defined_before(v: Value, body: Seq<Op>, n: int) -> bool {
    match v {
        Value::Inst(i) => i < n && !(body[i as int] is Store),
        _ => true,
    }
}

/// Every operand of `op` is available at position `n` of `body`.
pub open spec fn uses_defined(op: Op, body: Seq<Op>, n: int) -> bool {
    match op {
        Op::Load(p) => defined_before(p, body, n),
        Op::Store { ptr, value, .. } => defined_before(ptr, body, n) && defined_before(value, body, n),
        Op::IntAdd(a, b) => defined_before(a, body, n) && defined_before(b, body, n),
        Op::IntSub(a, b) => defined_before(a, body, n) && defined_before(b, body, n),
        Op::U32Binary(_, a, b) => defined_before(a, body, n) && defined_before(b, body, n),
        Op::U32Unary(_, a) => defined_before(a, body, n),
        Op::Call(_, args) => forall|j: int| 0 <= j < args.len() ==> defined_before(#[trigger] args[j], body, n),
    }
}

/// Every instruction of `body` uses only values defined before it.
pub open spec fn ssa(body: Seq<Op>) -> bool {
    forall|i: int| 0 <= i < body.len() ==> uses_defined(#[trigger] body[i], body, i)
}

/// Every stack slot of the variable table is available after `body`.
pub open spec fn slots_defined(c: LowerCtx, body: Seq<Op>) -> bool {
    forall|pos: usize| c.vars.contains_key(pos) ==> defined_before(#[trigger] c.vars[pos], body, body.len() as int)
}

/// `b2` starts with `b1`.
pub open spec fn extends(b1: Seq<Op>, b2: Seq<Op>) -> bool {
    b1.len() <= b2.len() && b2.subrange(0, b1.len() as int) == b1
}

proof fn lemma_defined_mono(v: Value, b1: Seq<Op>, b2: Seq<Op>, n1: int, n2: int)
    requires
        extends(b1, b2),
        n1 <= n2,
        n1 <= b1.len(),
        defined_before(v, b1, n1),
    ensures
        defined_before(v, b2, n2),
{
    if let Value::Inst(i) = v {
        assert(b2.subrange(0, b1.len() as int)[i as int] == b2[i as int]);
    }
}

proof fn lemma_extends_trans(b1: Seq<Op>, b2: Seq<Op>, b3: Seq<Op>)
    requires
        extends(b1, b2),
        extends(b2, b3),
    ensures
        extends(b1, b3),
{
    assert(b3.subrange(0, b1.len() as int) =~= b2.subrange(0, b1.len() as int));
}

proof fn lemma_slots_mono(c: LowerCtx, b1: Seq<Op>, b2: Seq<Op>)
    requires
        extends(b1, b2),
        slots_defined(c, b1),
    ensures
        slots_defined(c, b2),
{
    assert forall|pos: usize| c.vars.contains_key(pos) implies defined_before(
        #[trigger] c.vars[pos],
        b2,
        b2.len() as int,
    ) by {
        lemma_defined_mono(c.vars[pos], b1, b2, b1.len() as int, b2.len() as int);
    }
}

/// Appending an instruction whose operands are available keeps the body in
/// SSA form; the new value is available after it when the instruction
/// defines one.
proof fn lemma_emit(body: Seq<Op>, op: Op)
    requires
        ssa(body),
        uses_defined(op, body, body.len() as int),
        body.len() < usize::MAX,
    ensures
        ssa(body.push(op)),
        extends(body, body.push(op)),
        !(op is Store) ==> defined_before(Value::Inst(body.len() as usize), body.push(op), body.len() as int + 1),
{
    let b = body.push(op);
    assert(b.subrange(0, body.len() as int) =~= body);
    assert forall|i: int| 0 <= i < b.len() implies uses_defined(#[trigger] b[i], b, i) by {
        lemma_uses_mono(b[i], body, b, i, i);
    }
}

proof fn lemma_uses_mono(op: Op, b1: Seq<Op>, b2: Seq<Op>, n1: int, n2: int)
    requires
        extends(b1, b2),
        n1 <= n2,
        n1 <= b1.len(),
        uses_defined(op, b1, n1),
    ensures
        uses_defined(op, b2, n2),
{
    match op {
        Op::Load(p) => lemma_defined_mono(p, b1, b2, n1, n2),
        Op::Store { ptr, value, .. } => {
            lemma_defined_mono(ptr, b1, b2, n1, n2);
            lemma_defined_mono(value, b1, b2, n1, n2);
        },
        Op::IntAdd(a, b) => {
            lemma_defined_mono(a, b1, b2, n1, n2);
            lemma_defined_mono(b, b1, b2, n1, n2);
        },
        Op::IntSub(a, b) => {
            lemma_defined_mono(a, b1, b2, n1, n2);
            lemma_defined_mono(b, b1, b2, n1, n2);
        },
        Op::U32Binary(_, a, b) => {
            lemma_defined_mono(a, b1, b2, n1, n2);
            lemma_defined_mono(b, b1, b2, n1, n2);
        },
        Op::U32Unary(_, a) => lemma_defined_mono(a, b1, b2, n1, n2),
        Op::Call(_, args) => {
            assert forall|j: int| 0 <= j < args.len() implies defined_before(#[trigger] args[j], b2, n2) by {
                lemma_defined_mono(args[j], b1, b2, n1, n2);
            }
        },
    }
}

/// Lowering only appends: the body it starts from is kept as it is, and
/// the code it adds is in SSA form with every value defined before its
/// use. The value of the expression is available after the code.
pub proof fn lemma_lower_ssa(e: Expression, c: LowerCtx, body: Seq<Op>)
    requires
        wf(e, c),
        ssa(body),
        slots_defined(c, body),
        lower(e, c, body).0.len() <= usize::MAX,
    ensures
        extends(body, lower(e, c, body).0),
        ssa(lower(e, c, body).0),
        defined_before(lower(e, c, body).1, lower(e, c, body).0, lower(e, c, body).0.len() as int),
    decreases e, 1nat,
{
    let (b, v) = lower(e, c, body);
    match binary_parts(e) {
        Some((op, l, r)) => {
            let (b1, v1) = lower(l, c, body);
            lemma_lower_extends(r, c, b1);
            lemma_lower_ssa(l, c, body);
            lemma_slots_mono(c, body, b1);
            lemma_lower_ssa(r, c, b1);
            let (b2, v2) = lower(r, c, b1);
            lemma_defined_mono(v1, b1, b2, b1.len() as int, b2.len() as int);
            lemma_emit(b2, Op::U32Binary(op, v1, v2));
            lemma_extends_trans(body, b1, b2);
            lemma_extends_trans(body, b2, b);
        },
        None => match e {
            Expression::Not(x) => {
                lemma_lower_ssa(*x, c, body);
                let (b1, v1) = lower(*x, c, body);
                lemma_emit(b1, Op::U32Unary(U32UnaryOp::Not, v1));
                lemma_extends_trans(body, b1, b);
            },
            Expression::BitwiseNot(x) => {
                lemma_lower_ssa(*x, c, body);
                let (b1, v1) = lower(*x, c, body);
                lemma_emit(b1, Op::U32Unary(U32UnaryOp::BitwiseNot, v1));
                lemma_extends_trans(body, b1, b);
            },
            Expression::Decrement(x) => {
                lemma_counter_ssa(c, body, *x, false);
            },
            Expression::Increment(x) => {
                lemma_counter_ssa(c, body, *x, true);
            },
            Expression::Assign(l, r) => {
                lemma_lower_ssa(*r, c, body);
                if !removable(c, *l) {
                    let (b1, v1) = lower(*r, c, body);
                    let p = slot_of(c, *l);
                    lemma_slots_mono(c, body, b1);
                    let st = Op::Store { ptr: p, value: v1, aligned: false };
                    lemma_emit(b1, st);
                    lemma_extends_trans(body, b1, b);
                    lemma_defined_mono(p, b1, b, b1.len() as int, b.len() as int);
                }
            },
            Expression::FunctionCall { .. } => {
                lemma_lower_call_ssa(e, c, body);
            },
            Expression::NumberLiteral(_) => {
                assert(body.subrange(0, body.len() as int) =~= body);
            },
            Expression::Variable(pos) => {
                lemma_emit(body, Op::Load(c.vars[pos]));
            },
            Expression::LibFunction(LibFunc::U32Sqrt, args) => {
                lemma_lower_ssa(args@[0], c, body);
                let (b1, v1) = lower(args@[0], c, body);
                let k = spec_get_function(c.module, u32_sqrt_name())->Some_0;
                let call = Op::Call(k as usize, seq![v1]);
                assert forall|j: int| 0 <= j < seq![v1].len() implies defined_before(
                    #[trigger] seq![v1][j],
                    b1,
                    b1.len() as int,
                ) by {}
                lemma_emit(b1, call);
                lemma_extends_trans(body, b1, b);
            },
            _ => {},
        },
    }
}

proof fn lemma_counter_ssa(c: LowerCtx, body: Seq<Op>, x: Expression, up: bool)
    requires
        is_slot_variable(c, x),
        ssa(body),
        slots_defined(c, body),
        counter_update(body, slot_of(c, x), up).0.len() <= usize::MAX,
    ensures
        extends(body, counter_update(body, slot_of(c, x), up).0),
        ssa(counter_update(body, slot_of(c, x), up).0),
        defined_before(
            counter_update(body, slot_of(c, x), up).1,
            counter_update(body, slot_of(c, x), up).0,
            counter_update(body, slot_of(c, x), up).0.len() as int,
        ),
{
    let p = slot_of(c, x);
    let n: nat = body.len();
    let step = if up {
        Op::IntAdd(Value::Inst(n as usize), Value::Const(1))
    } else {
        Op::IntSub(Value::Inst(n as usize), Value::Const(1))
    };
    let b1 = body.push(Op::Load(p));
    let b2 = b1.push(step);
    let b3 = b2.push(Op::Store { ptr: p, value: Value::Inst((n + 1) as usize), aligned: true });
    lemma_emit(body, Op::Load(p));
    lemma_defined_mono(p, body, b1, n as int, b1.len() as int);
    lemma_emit(b1, step);
    lemma_defined_mono(p, b1, b2, b1.len() as int, b2.len() as int);
    lemma_defined_mono(Value::Inst(n as usize), b1, b2, b1.len() as int, b2.len() as int);
    lemma_emit(b2, Op::Store { ptr: p, value: Value::Inst((n + 1) as usize), aligned: true });
    lemma_extends_trans(body, b1, b2);
    lemma_extends_trans(body, b2, b3);
    lemma_defined_mono(p, b2, b3, b2.len() as int, b3.len() as int);
}

/// The law of `lemma_lower_ssa` for calls.
proof fn lemma_lower_call_ssa(e: Expression, c: LowerCtx, body: Seq<Op>)
    requires
        e is FunctionCall,
        wf(e, c),
        ssa(body),
        slots_defined(c, body),
        lower_call(e, c, body).0.len() <= usize::MAX,
    ensures
        extends(body, lower_call(e, c, body).0),
        ssa(lower_call(e, c, body).0),
        defined_before(
            lower_call(e, c, body).1,
            lower_call(e, c, body).0,
            lower_call(e, c, body).0.len() as int,
        ),
    decreases e, 0nat,
{
    assert(body.subrange(0, body.len() as int) =~= body);
    match e {
        Expression::FunctionCall { function, args } => match *function {
            Expression::Function(no) => match callee_of(c, no) {
                Some(k) => {
                    assert(decreases_to!(e => args));
                    assert(decreases_to!(args => args@));
                    lemma_lower_args_ssa(args@, c, body);
                    let (b1, vs) = lower_args(args@, c, body);
                    lemma_emit(b1, Op::Call(k as usize, vs));
                    lemma_extends_trans(body, b1, lower_call(e, c, body).0);
                },
                None => {},
            },
            _ => {},
        },
        _ => {},
    }
}

/// The law of `lemma_lower_ssa` for argument lists: every argument value is
/// available after the code.
proof fn lemma_lower_args_ssa(args: Seq<Expression>, c: LowerCtx, body: Seq<Op>)
    requires
        wf_args(args, c),
        ssa(body),
        slots_defined(c, body),
        lower_args(args, c, body).0.len() <= usize::MAX,
    ensures
        extends(body, lower_args(args, c, body).0),
        ssa(lower_args(args, c, body).0),
        lower_args(args, c, body).1.len() == args.len(),
        forall|j: int|
            0 <= j < args.len() ==> defined_before(
                #[trigger] lower_args(args, c, body).1[j],
                lower_args(args, c, body).0,
                lower_args(args, c, body).0.len() as int,
            ),
    decreases args, 0nat,
{
    if args.len() == 0 {
        assert(body.subrange(0, body.len() as int) =~= body);
    } else {
        let init = args.subrange(0, args.len() - 1);
        let (b1, vs) = lower_args(init, c, body);
        lemma_lower_extends(args[args.len() - 1], c, b1);
        lemma_lower_args_ssa(init, c, body);
        lemma_slots_mono(c, body, b1);
        lemma_lower_ssa(args[args.len() - 1], c, b1);
        let (b2, v) = lower(args[args.len() - 1], c, b1);
        lemma_extends_trans(body, b1, b2);
        let vs2 = vs.push(v);
        assert forall|j: int| 0 <= j < args.len() implies defined_before(
            #[trigger] vs2[j],
            b2,
            b2.len() as int,
        ) by {
            if j < args.len() - 1 {
                lemma_defined_mono(vs[j], b1, b2, b1.len() as int, b2.len() as int);
            }
        }
    }
}


/// Lowering only appends to the body it starts from.
pub proof fn lemma_lower_extends(e: Expression, c: LowerCtx, body: Seq<Op>)
    ensures
        extends(body, lower(e, c, body).0),
    decreases e, 1nat,
{
    assert(body.subrange(0, body.len() as int) =~= body);
    match binary_parts(e) {
        Some((op, l, r)) => {
            let (b1, v1) = lower(l, c, body);
            let (b2, v2) = lower(r, c, b1);
            lemma_lower_extends(l, c, body);
            lemma_lower_extends(r, c, b1);
            lemma_push_extends(b2, Op::U32Binary(op, v1, v2));
            lemma_extends_trans(body, b1, b2);
            lemma_extends_trans(body, b2, lower(e, c, body).0);
        },
        None => match e {
            Expression::Not(x) => {
                let (b1, v1) = lower(*x, c, body);
                lemma_lower_extends(*x, c, body);
                lemma_push_extends(b1, Op::U32Unary(U32UnaryOp::Not, v1));
                lemma_extends_trans(body, b1, lower(e, c, body).0);
            },
            Expression::BitwiseNot(x) => {
                let (b1, v1) = lower(*x, c, body);
                lemma_lower_extends(*x, c, body);
                lemma_push_extends(b1, Op::U32Unary(U32UnaryOp::BitwiseNot, v1));
                lemma_extends_trans(body, b1, lower(e, c, body).0);
            },
            Expression::Decrement(x) => {
                assert(counter_update(body, slot_of(c, *x), false).0.subrange(0, body.len() as int) =~= body);
            },
            Expression::Increment(x) => {
                assert(counter_update(body, slot_of(c, *x), true).0.subrange(0, body.len() as int) =~= body);
            },
            Expression::Assign(l, r) => {
                lemma_lower_extends(*r, c, body);
                let (b1, v1) = lower(*r, c, body);
                lemma_push_extends(b1, Op::Store { ptr: slot_of(c, *l), value: v1, aligned: false });
                lemma_extends_trans(body, b1, b1.push(Op::Store { ptr: slot_of(c, *l), value: v1, aligned: false }));
            },
            Expression::FunctionCall { .. } => {
                lemma_lower_call_extends(e, c, body);
            },
            Expression::Variable(pos) => {
                lemma_push_extends(body, Op::Load(c.vars[pos]));
            },
            Expression::LibFunction(LibFunc::U32Sqrt, args) => {
                if args.len() >= 1 {
                    lemma_lower_extends(args@[0], c, body);
                    let (b1, v1) = lower(args@[0], c, body);
                    let k = spec_get_function(c.module, u32_sqrt_name())->Some_0;
                    lemma_push_extends(b1, Op::Call(k as usize, seq![v1]));
                    lemma_extends_trans(body, b1, lower(e, c, body).0);
                }
            },
            _ => {},
        },
    }
}

proof fn lemma_push_extends(body: Seq<Op>, op: Op)
    ensures
        extends(body, body.push(op)),
{
    assert(body.push(op).subrange(0, body.len() as int) =~= body);
}

/// Lowering a call only appends to the body it starts from.
proof fn lemma_lower_call_extends(e: Expression, c: LowerCtx, body: Seq<Op>)
    ensures
        extends(body, lower_call(e, c, body).0),
    decreases e, 0nat,
{
    assert(body.subrange(0, body.len() as int) =~= body);
    match e {
        Expression::FunctionCall { function, args } => match *function {
            Expression::Function(no) => match callee_of(c, no) {
                Some(k) => {
                    assert(decreases_to!(e => args));
                    assert(decreases_to!(args => args@));
                    lemma_lower_args_extends(args@, c, body);
                    let (b1, vs) = lower_args(args@, c, body);
                    lemma_push_extends(b1, Op::Call(k as usize, vs));
                    lemma_extends_trans(body, b1, lower_call(e, c, body).0);
                },
                None => {},
            },
            _ => {},
        },
        _ => {},
    }
}

/// Lowering an argument list only appends to the body it starts from.
proof fn lemma_lower_args_extends(args: Seq<Expression>, c: LowerCtx, body: Seq<Op>)
    ensures
        extends(body, lower_args(args, c, body).0),
    decreases args, 0nat,
{
    if args.len() == 0 {
        assert(body.subrange(0, body.len() as int) =~= body);
    } else {
        let init = args.subrange(0, args.len() - 1);
        lemma_lower_args_extends(init, c, body);
        let (b1, vs) = lower_args(init, c, body);
        lemma_lower_extends(args[args.len() - 1], c, b1);
        lemma_extends_trans(body, b1, lower_args(args, c, body).0);
    }
}




/// An assignment can be lowered exactly when its right side can and its
/// target either has a stack slot as a variable or is a variable whose
/// assignments are dead in the current function; what the right side is
/// (a call, an operator, a literal, ...) matters only through whether it
/// can be lowered.
pub proof fn lemma_assign_lowerable(l: Expression, r: Expression, c: LowerCtx)
    ensures
        wf(Expression::Assign(Box::new(l), Box::new(r)), c) <==> (wf(r, c) && match l {
            Expression::Variable(pos) => c.vars.contains_key(pos) || (c.unused matches Some(
                unused,
            ) && unused.contains(pos)),
            _ => false,
        }),
{
}

/// The j-th value of an argument list is the value that lowering gives the
/// j-th argument, lowered after the arguments before it.
proof fn lemma_lower_args_nth(args: Seq<Expression>, c: LowerCtx, body: Seq<Op>, j: int)
    requires
        0 <= j < args.len(),
    ensures
        lower_args(args, c, body).1.len() == args.len(),
        lower_args(args, c, body).1[j] == lower(
            args[j],
            c,
            lower_args(args.take(j), c, body).0,
        ).1,
    decreases args.len(),
{
    let init = args.subrange(0, args.len() - 1);
    lemma_lower_args_len(init, c, body);
    if j < args.len() - 1 {
        lemma_lower_args_nth(init, c, body, j);
        assert(init.take(j) =~= args.take(j));
    } else {
        assert(args.take(j) =~= init);
    }
}

proof fn lemma_lower_args_len(args: Seq<Expression>, c: LowerCtx, body: Seq<Op>)
    ensures
        lower_args(args, c, body).1.len() == args.len(),
    decreases args.len(),
{
    if args.len() > 0 {
        lemma_lower_args_len(args.subrange(0, args.len() - 1), c, body);
    }
}

/// A call of a function that the module declares ends with one call of that
/// module function, with one operand per argument: the j-th operand is the
/// value that lowering gives the j-th argument (lowered after the ones
/// before it), for every number of arguments. The call's result is the
/// value of the expression.
pub proof fn lemma_call_arguments_in_order(
    no: usize,
    args: Vec<Expression>,
    c: LowerCtx,
    body: Seq<Op>,
)
    requires
        callee_of(c, no) is Some,
    ensures
        ({
            let e = Expression::FunctionCall {
                function: Box::new(Expression::Function(no)),
                args,
            };
            let (b, v) = lower_call(e, c, body);
            &&& b.len() > 0
            &&& v == Value::Inst(b.drop_last().len() as usize)
            &&& b.last() matches Op::Call(k, vs) && {
                &&& k == (callee_of(c, no)->Some_0) as usize
                &&& vs.len() == args.len()
                &&& forall|j: int|
                    0 <= j < args.len() ==> #[trigger] vs[j] == lower(
                        args@[j],
                        c,
                        lower_args(args@.take(j), c, body).0,
                    ).1
            }
        }),
{
    lemma_lower_args_len(args@, c, body);
    let b1 = lower_args(args@, c, body).0;
    let vs = lower_args(args@, c, body).1;
    assert(b1.push(Op::Call((callee_of(c, no)->Some_0) as usize, vs)).drop_last() == b1);
    assert forall|j: int| 0 <= j < args.len() implies #[trigger] vs[j] == lower(
        args@[j],
        c,
        lower_args(args@.take(j), c, body).0,
    ).1 by {
        lemma_lower_args_nth(args@, c, body, j);
    }
}

} // verus!
