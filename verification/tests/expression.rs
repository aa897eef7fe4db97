use std::collections::HashMap;

use ola_lang::ast::{should_remove_assignment, Expression, Function, LibFunc, Namespace};
use ola_lang::expression::{can_lower, emit_function_call, expression};
use ola_lang::ir::{Binary, Inst, ModuleFunction, U32BinaryOp, U32UnaryOp, Value};

fn b(e: Expression) -> Box<Expression> {
    Box::new(e)
}

fn var(pos: usize) -> Expression {
    Expression::Variable(pos)
}

fn module(names: &[(&str, bool)]) -> Binary {
    Binary {
        functions: names
            .iter()
            .map(|(n, r)| ModuleFunction { name: n.to_string(), returns_value: *r })
            .collect(),
        body: Vec::new(),
    }
}

fn slots(positions: &[usize]) -> HashMap<usize, Value> {
    positions.iter().map(|p| (*p, Value::Slot(*p))).collect()
}

fn namespace(names: &[&str]) -> Namespace {
    Namespace {
        functions: names
            .iter()
            .map(|n| Function { name: n.to_string(), unused_variables: Vec::new() })
            .collect(),
    }
}

/// Lowers `e` in a fresh body and returns the code and the value.
fn lower(
    e: &Expression,
    bin: &mut Binary,
    func: Option<&Function>,
    vars: &mut HashMap<usize, Value>,
    ns: &Namespace,
) -> Value {
    assert!(can_lower(e, bin, func, vars, ns));
    expression(e, bin, func, vars, ns)
}

#[test]
fn variable_is_one_aligned_load_of_its_slot() {
    let mut bin = module(&[]);
    let mut vars = slots(&[0]);
    let v = lower(&var(0), &mut bin, None, &mut vars, &namespace(&[]));
    assert_eq!(bin.body, vec![Inst::Load(Value::Slot(0))]);
    assert_eq!(v, Value::Inst(0));
}

#[test]
fn number_literal_emits_nothing() {
    let mut bin = module(&[]);
    let mut vars = slots(&[]);
    let v = lower(&Expression::NumberLiteral(42), &mut bin, None, &mut vars, &namespace(&[]));
    assert!(bin.body.is_empty());
    assert_eq!(v, Value::Const(42));
}

#[test]
fn increment_loads_adds_one_and_stores_back_yielding_the_slot() {
    let mut bin = module(&[]);
    let mut vars = slots(&[3]);
    let v = lower(&Expression::Increment(b(var(3))), &mut bin, None, &mut vars, &namespace(&[]));
    assert_eq!(
        bin.body,
        vec![
            Inst::Load(Value::Slot(3)),
            Inst::IntAdd(Value::Inst(0), Value::Const(1)),
            Inst::Store { ptr: Value::Slot(3), value: Value::Inst(1), aligned: true },
        ]
    );
    assert_eq!(v, Value::Slot(3));
}

#[test]
fn decrement_loads_subtracts_one_and_stores_back_yielding_the_slot() {
    let mut bin = module(&[]);
    bin.body.push(Inst::Load(Value::Slot(9)));
    let mut vars = slots(&[1]);
    let v = lower(&Expression::Decrement(b(var(1))), &mut bin, None, &mut vars, &namespace(&[]));
    assert_eq!(
        bin.body,
        vec![
            Inst::Load(Value::Slot(9)),
            Inst::Load(Value::Slot(1)),
            Inst::IntSub(Value::Inst(1), Value::Const(1)),
            Inst::Store { ptr: Value::Slot(1), value: Value::Inst(2), aligned: true },
        ]
    );
    assert_eq!(v, Value::Slot(1));
}

#[test]
fn binary_operands_are_lowered_left_to_right() {
    let mut bin = module(&[]);
    let mut vars = slots(&[0, 1]);
    let e = Expression::Subtract(b(var(0)), b(Expression::Multiply(b(var(1)), b(Expression::NumberLiteral(2)))));
    let v = lower(&e, &mut bin, None, &mut vars, &namespace(&[]));
    assert_eq!(
        bin.body,
        vec![
            Inst::Load(Value::Slot(0)),
            Inst::Load(Value::Slot(1)),
            Inst::U32Binary(U32BinaryOp::Multiply, Value::Inst(1), Value::Const(2)),
            Inst::U32Binary(U32BinaryOp::Subtract, Value::Inst(0), Value::Inst(2)),
        ]
    );
    assert_eq!(v, Value::Inst(3));
}

#[test]
fn every_binary_form_maps_to_its_operator() {
    let forms: Vec<(fn(Box<Expression>, Box<Expression>) -> Expression, U32BinaryOp)> = vec![
        (Expression::Add, U32BinaryOp::Add),
        (Expression::Subtract, U32BinaryOp::Subtract),
        (Expression::Multiply, U32BinaryOp::Multiply),
        (Expression::Divide, U32BinaryOp::Divide),
        (Expression::Modulo, U32BinaryOp::Modulo),
        (Expression::BitwiseOr, U32BinaryOp::BitwiseOr),
        (Expression::BitwiseAnd, U32BinaryOp::BitwiseAnd),
        (Expression::BitwiseXor, U32BinaryOp::BitwiseXor),
        (Expression::ShiftLeft, U32BinaryOp::ShiftLeft),
        (Expression::ShiftRight, U32BinaryOp::ShiftRight),
        (Expression::Equal, U32BinaryOp::Equal),
        (Expression::NotEqual, U32BinaryOp::NotEqual),
        (Expression::More, U32BinaryOp::More),
        (Expression::MoreEqual, U32BinaryOp::MoreEqual),
        (Expression::Less, U32BinaryOp::Less),
        (Expression::LessEqual, U32BinaryOp::LessEqual),
        (Expression::Or, U32BinaryOp::Or),
        (Expression::And, U32BinaryOp::And),
        (Expression::Power, U32BinaryOp::Power),
    ];
    for (form, op) in forms {
        let mut bin = module(&[]);
        let mut vars = slots(&[]);
        let e = form(b(Expression::NumberLiteral(5)), b(Expression::NumberLiteral(6)));
        let v = lower(&e, &mut bin, None, &mut vars, &namespace(&[]));
        assert_eq!(bin.body, vec![Inst::U32Binary(op, Value::Const(5), Value::Const(6))]);
        assert_eq!(v, Value::Inst(0));
    }
}

#[test]
fn unary_forms_map_to_their_operator() {
    let mut bin = module(&[]);
    let mut vars = slots(&[0]);
    let e = Expression::Not(b(Expression::BitwiseNot(b(var(0)))));
    let v = lower(&e, &mut bin, None, &mut vars, &namespace(&[]));
    assert_eq!(
        bin.body,
        vec![
            Inst::Load(Value::Slot(0)),
            Inst::U32Unary(U32UnaryOp::BitwiseNot, Value::Inst(0)),
            Inst::U32Unary(U32UnaryOp::Not, Value::Inst(1)),
        ]
    );
    assert_eq!(v, Value::Inst(2));
}

#[test]
fn assignment_stores_into_the_slot_and_yields_it() {
    let mut bin = module(&[]);
    let mut vars = slots(&[4]);
    let e = Expression::Assign(b(var(4)), b(Expression::NumberLiteral(7)));
    let v = lower(&e, &mut bin, None, &mut vars, &namespace(&[]));
    assert_eq!(bin.body, vec![Inst::Store { ptr: Value::Slot(4), value: Value::Const(7), aligned: false }]);
    assert_eq!(v, Value::Slot(4));
}

#[test]
fn dead_assignment_keeps_only_the_right_side() {
    let f = Function { name: "f".to_string(), unused_variables: vec![2, 4] };
    assert!(should_remove_assignment(&var(4), &f));
    assert!(!should_remove_assignment(&var(3), &f));
    assert!(!should_remove_assignment(&Expression::NumberLiteral(4), &f));

    let mut bin = module(&[]);
    // The dead variable needs no slot.
    let mut vars = slots(&[0]);
    let e = Expression::Assign(b(var(4)), b(Expression::Increment(b(var(0)))));
    let v = lower(&e, &mut bin, Some(&f), &mut vars, &namespace(&[]));
    assert_eq!(
        bin.body,
        vec![
            Inst::Load(Value::Slot(0)),
            Inst::IntAdd(Value::Inst(0), Value::Const(1)),
            Inst::Store { ptr: Value::Slot(0), value: Value::Inst(1), aligned: true },
        ]
    );
    assert_eq!(v, Value::Slot(0));

    // Without a current function nothing is dead.
    let mut vars = slots(&[4]);
    let mut bin = module(&[]);
    let e = Expression::Assign(b(var(4)), b(Expression::NumberLiteral(1)));
    lower(&e, &mut bin, None, &mut vars, &namespace(&[]));
    assert_eq!(bin.body.len(), 1);
}

#[test]
fn call_lowers_arguments_in_order_then_calls() {
    let mut bin = module(&[("other", false), ("callee", true)]);
    let mut vars = slots(&[0, 1]);
    let ns = namespace(&["callee"]);
    let e = Expression::FunctionCall {
        function: b(Expression::Function(0)),
        args: vec![var(1), Expression::NumberLiteral(8), var(0)],
    };
    let v = lower(&e, &mut bin, None, &mut vars, &ns);
    assert_eq!(
        bin.body,
        vec![
            Inst::Load(Value::Slot(1)),
            Inst::Load(Value::Slot(0)),
            Inst::Call(1, vec![Value::Inst(0), Value::Const(8), Value::Inst(1)]),
        ]
    );
    assert_eq!(v, Value::Inst(2));
}

#[test]
fn call_of_an_undeclared_function_emits_nothing_and_yields_zero() {
    let mut bin = module(&[("other", true)]);
    let mut vars = slots(&[]);
    let ns = namespace(&["missing"]);
    let e = Expression::FunctionCall {
        function: b(Expression::Function(0)),
        // Never lowered: the variable has no slot.
        args: vec![var(5)],
    };
    assert!(can_lower(&e, &bin, None, &vars, &ns));
    let v = emit_function_call(&e, &mut bin, None, &mut vars, &ns);
    assert!(bin.body.is_empty());
    assert_eq!(v, Value::Const(0));
}

#[test]
fn call_through_a_non_function_callee_yields_zero() {
    let mut bin = module(&[]);
    let mut vars = slots(&[]);
    let e = Expression::FunctionCall { function: b(Expression::NumberLiteral(1)), args: vec![] };
    let v = lower(&e, &mut bin, None, &mut vars, &namespace(&[]));
    assert!(bin.body.is_empty());
    assert_eq!(v, Value::Const(0));
}

#[test]
fn call_resolves_to_the_first_module_function_of_that_name() {
    let mut bin = module(&[("a", true), ("f", true), ("f", true)]);
    let mut vars = slots(&[]);
    let ns = namespace(&["g", "f"]);
    let e = Expression::FunctionCall { function: b(Expression::Function(1)), args: vec![] };
    let v = lower(&e, &mut bin, None, &mut vars, &ns);
    assert_eq!(bin.body, vec![Inst::Call(1, vec![])]);
    assert_eq!(v, Value::Inst(0));
}

#[test]
fn u32_sqrt_calls_the_library_function() {
    let mut bin = module(&[("main", false), ("u32_sqrt", true)]);
    let mut vars = slots(&[0]);
    let e = Expression::LibFunction(LibFunc::U32Sqrt, vec![var(0)]);
    let v = lower(&e, &mut bin, None, &mut vars, &namespace(&[]));
    assert_eq!(bin.body, vec![Inst::Load(Value::Slot(0)), Inst::Call(1, vec![Value::Inst(0)])]);
    assert_eq!(v, Value::Inst(1));
}

#[test]
fn can_lower_refuses_what_lowering_cannot_take() {
    let bin = module(&[("void_fn", false), ("u32_sqrt", false)]);
    let vars = slots(&[0]);
    let ns = namespace(&["void_fn"]);
    // Variable without a slot.
    assert!(!can_lower(&var(1), &bin, None, &vars, &ns));
    // Increment of something that is not a variable.
    assert!(!can_lower(&Expression::Increment(b(Expression::NumberLiteral(1))), &bin, None, &vars, &ns));
    // Assignment to a non-variable that is not dead.
    let e = Expression::Assign(b(Expression::NumberLiteral(1)), b(var(0)));
    assert!(!can_lower(&e, &bin, None, &vars, &ns));
    // Call of a function number outside the namespace.
    let e = Expression::FunctionCall { function: b(Expression::Function(3)), args: vec![] };
    assert!(!can_lower(&e, &bin, None, &vars, &ns));
    // Call of a function that returns nothing.
    let e = Expression::FunctionCall { function: b(Expression::Function(0)), args: vec![] };
    assert!(!can_lower(&e, &bin, None, &vars, &ns));
    // Square root without argument, or without a value-returning u32_sqrt.
    assert!(!can_lower(&Expression::LibFunction(LibFunc::U32Sqrt, vec![]), &bin, None, &vars, &ns));
    assert!(!can_lower(&Expression::LibFunction(LibFunc::U32Sqrt, vec![var(0)]), &bin, None, &vars, &ns));
    // A bare function name is not an expression of its own.
    assert!(!can_lower(&Expression::Function(0), &bin, None, &vars, &ns));
    // An argument that cannot be lowered.
    let bin2 = module(&[("f", true)]);
    let ns2 = namespace(&["f"]);
    let e = Expression::FunctionCall { function: b(Expression::Function(0)), args: vec![var(0), var(7)] };
    assert!(!can_lower(&e, &bin2, None, &vars, &ns2));
}

#[test]
fn lowering_keeps_earlier_code_and_defines_before_use() {
    let mut bin = module(&[("f", true)]);
    bin.body.push(Inst::Store { ptr: Value::Slot(0), value: Value::Const(0), aligned: false });
    let mut vars = slots(&[0, 1]);
    let ns = namespace(&["f"]);
    let e = Expression::Add(
        b(Expression::FunctionCall { function: b(Expression::Function(0)), args: vec![var(0)] }),
        b(Expression::Increment(b(var(1)))),
    );
    let v = lower(&e, &mut bin, None, &mut vars, &ns);
    assert_eq!(bin.body[0], Inst::Store { ptr: Value::Slot(0), value: Value::Const(0), aligned: false });
    let uses = |inst: &Inst| -> Vec<Value> {
        match inst {
            Inst::Load(p) => vec![*p],
            Inst::Store { ptr, value, .. } => vec![*ptr, *value],
            Inst::IntAdd(a, c) | Inst::IntSub(a, c) | Inst::U32Binary(_, a, c) => vec![*a, *c],
            Inst::U32Unary(_, a) => vec![*a],
            Inst::Call(_, args) => args.clone(),
        }
    };
    for (i, inst) in bin.body.iter().enumerate() {
        for u in uses(inst) {
            if let Value::Inst(j) = u {
                assert!(j < i);
                assert!(!matches!(bin.body[j], Inst::Store { .. }));
            }
        }
    }
    assert_eq!(v, Value::Inst(bin.body.len() - 1));
    assert_eq!(vars.len(), 2);
    assert_eq!(bin.functions.len(), 1);
}

/// Runs the loads, stores and integer steps of a body on a memory of
/// slots, with every `u32` operation computing zero, and returns the
/// memory and the value of each instruction.
fn run(body: &[Inst]) -> (HashMap<usize, u64>, Vec<u64>) {
    let mut mem: HashMap<usize, u64> = HashMap::new();
    let mut regs: Vec<u64> = Vec::new();
    let val = |regs: &Vec<u64>, v: &Value| -> u64 {
        match v {
            Value::Inst(i) => regs[*i],
            Value::Const(c) => *c,
            Value::Slot(p) => 1000 + *p as u64,
        }
    };
    for inst in body {
        let r = match inst {
            Inst::Load(p) => *mem.get(&(val(&regs, p) as usize)).unwrap_or(&0),
            Inst::Store { ptr, value, .. } => {
                mem.insert(val(&regs, ptr) as usize, val(&regs, value));
                0
            },
            Inst::IntAdd(a, b) => val(&regs, a).wrapping_add(val(&regs, b)),
            Inst::IntSub(a, b) => val(&regs, a).wrapping_sub(val(&regs, b)),
            _ => 0,
        };
        regs.push(r);
    }
    (mem, regs)
}

#[test]
fn read_after_assignment_gives_the_assigned_value() {
    let mut bin = module(&[]);
    let mut vars = slots(&[0, 1]);
    let ns = namespace(&[]);
    // x1 = 41; x0 = x1++; then read x1 and x0.
    lower(&Expression::Assign(b(var(1)), b(Expression::NumberLiteral(41))), &mut bin, None, &mut vars, &ns);
    lower(&Expression::Increment(b(var(1))), &mut bin, None, &mut vars, &ns);
    let x1 = lower(&var(1), &mut bin, None, &mut vars, &ns);
    lower(&Expression::Assign(b(var(0)), b(Expression::NumberLiteral(7))), &mut bin, None, &mut vars, &ns);
    let x0 = lower(&var(0), &mut bin, None, &mut vars, &ns);
    let (mem, regs) = run(&bin.body);
    let value = |v: Value| match v {
        Value::Inst(i) => regs[i],
        Value::Const(c) => c,
        Value::Slot(p) => 1000 + p as u64,
    };
    assert_eq!(value(x1), 42);
    assert_eq!(value(x0), 7);
    assert_eq!(mem[&1001], 42);
}

#[test]
fn decrement_wraps_at_zero() {
    let mut bin = module(&[]);
    let mut vars = slots(&[2]);
    let ns = namespace(&[]);
    let v = lower(&Expression::Decrement(b(var(2))), &mut bin, None, &mut vars, &ns);
    let (mem, _) = run(&bin.body);
    assert_eq!(mem[&1002], u64::MAX);
    assert_eq!(v, Value::Slot(2));
}
