//! The IR that expression lowering emits: a straight-line sequence of
//! instructions in SSA form, where instruction `n` defines the value
//! `Value::Inst(n)`, together with the functions declared in the module.
use vstd::prelude::*;

verus! {

/// An IR value.
#[derive(Clone, Copy, Debug, PartialEq, Eq, Structural)]
pub enum Value {
    /// The result of instruction `n` of the function body.
    Inst(usize),
    /// A 64-bit integer constant.
    Const(u64),
    /// The stack slot that the function's prologue allocated for the
    /// variable at the given position.
    Slot(usize),
}

/// Binary operators on `u32` values.
#[derive(Clone, Copy, Debug, PartialEq, Eq, Structural)]
pub enum U32BinaryOp {
    Add,
    Subtract,
    Multiply,
    Divide,
    Modulo,
    BitwiseOr,
    BitwiseAnd,
    BitwiseXor,
    ShiftLeft,
    ShiftRight,
    Equal,
    NotEqual,
    More,
    MoreEqual,
    Less,
    LessEqual,
    Or,
    And,
    Power,
}

/// Unary operators on `u32` values.
#[derive(Clone, Copy, Debug, PartialEq, Eq, Structural)]
pub enum U32UnaryOp {
    Not,
    BitwiseNot,
}

/// An IR instruction.
#[derive(Debug, PartialEq, Eq)]
pub enum Inst {
    /// Load of a 64-bit integer through a pointer, 8-byte aligned.
    Load(Value),
    /// Store of `value` through `ptr`; `aligned` marks an explicit 8-byte
    /// alignment. Defines no value.
    Store { ptr: Value, value: Value, aligned: bool },
    /// 64-bit wrapping addition.
    IntAdd(Value, Value),
    /// 64-bit wrapping subtraction.
    IntSub(Value, Value),
    /// A `u32` binary operation, expanded by the target's `u32` operator
    /// lowering.
    U32Binary(U32BinaryOp, Value, Value),
    /// A `u32` unary operation, expanded by the target's `u32` operator
    /// lowering.
    U32Unary(U32UnaryOp, Value),
    /// Call of the module function with the given index.
    Call(usize, Vec<Value>),
}

/// The mathematical content of an instruction.
pub enum Op {
    Load(Value),
    Store { ptr: Value, value: Value, aligned: bool },
    IntAdd(Value, Value),
    IntSub(Value, Value),
    U32Binary(U32BinaryOp, Value, Value),
    U32Unary(U32UnaryOp, Value),
    Call(usize, Seq<Value>),
}

impl View for Inst {
    type V = Op;

    open spec fn view(&self) -> Op {
        match self {
            Inst::Load(p) => Op::Load(*p),
            Inst::Store { ptr, value, aligned } => Op::Store {
                ptr: *ptr,
                value: *value,
                aligned: *aligned,
            },
            Inst::IntAdd(a, b) => Op::IntAdd(*a, *b),
            Inst::IntSub(a, b) => Op::IntSub(*a, *b),
            Inst::U32Binary(op, a, b) => Op::U32Binary(*op, *a, *b),
            Inst::U32Unary(op, a) => Op::U32Unary(*op, *a),
            Inst::Call(f, args) => Op::Call(*f, args@),
        }
    }
}

/// The instructions of a body, each by its view.
pub open spec fn ops(body: Seq<Inst>) -> Seq<Op> {
    body.map_values(|i: Inst| i@)
}

/// A function declared in the module.
#[derive(Debug)]
pub struct ModuleFunction {
    pub name: String,
    /// Whether a call of the function yields a value (it is not `void`).
    pub returns_value: bool,
}

/// The module's declared functions and the body being generated.
#[derive(Debug)]
pub struct Binary {
    pub functions: Vec<ModuleFunction>,
    pub body: Vec<Inst>,
}

/// `i` is the first index of a function named `name`.
pub open spec fn is_first_named(m: Seq<ModuleFunction>, name: Seq<char>, i: int) -> bool {
    &&& 0 <= i < m.len()
    &&& m[i].name@ == name
    &&& forall|j: int| 0 <= j < i ==> m[j].name@ != name
}

/// The index of the first module function named `name`, if any.
pub open spec fn spec_get_function(m: Seq<ModuleFunction>, name: Seq<char>) -> Option<int> {
    if exists|i: int| is_first_named(m, name, i) {
        Some(choose|i: int| is_first_named(m, name, i))
    } else {
        None
    }
}

impl Binary {
    /// The first module function named `name`, if any.
    pub fn get_function(&self, name: &String) -> (res: Option<usize>)
        ensures
            match res {
                Some(k) => spec_get_function(self.functions@, name@) == Some(k as int),
                None => spec_get_function(self.functions@, name@) is None,
            },
    {
        let mut i: usize = 0;
        while i < self.functions.len()
            invariant
                i <= self.functions.len(),
                forall|j: int| 0 <= j < i ==> self.functions@[j].name@ != name@,
            decreases self.functions.len() - i,
        {
            if self.functions[i].name == *name {
                proof {
                    assert(is_first_named(self.functions@, name@, i as int));
                    let k = choose|k: int| is_first_named(self.functions@, name@, k);
                    assert(k == i);
                }
                return Some(i);
            }
            i = i + 1;
        }
        None
    }

    /// Appends `inst` to the body and returns the value it defines.
    pub fn emit(&mut self, inst: Inst) -> (v: Value)
        ensures
            ops(final(self).body@) == ops(old(self).body@).push(inst@),
            v == Value::Inst(old(self).body@.len() as usize),
            final(self).functions@ == old(self).functions@,
    {
        let n: usize = self.body.len();
        let ghost before = self.body@;
        let ghost pushed = before.push(inst);
        self.body.push(inst);
        proof {
            assert(ops(pushed) =~= ops(before).push(pushed.last()@));
        }
        Value::Inst(n)
    }
}

} // verus!
