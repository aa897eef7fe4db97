//! The resolved source expressions that the IR generator lowers, and the
//! namespace facts it consults.
use vstd::prelude::*;

verus! {

/// Library functions that expressions may call directly.
#[derive(Clone, Copy, Debug, PartialEq, Eq, Structural)]
pub enum LibFunc {
    /// Integer square root of a `u32`.
    U32Sqrt,
}

/// A resolved expression of an Ola function body.
#[derive(Debug)]
pub enum Expression {
    Add(Box<Expression>, Box<Expression>),
    Subtract(Box<Expression>, Box<Expression>),
    Multiply(Box<Expression>, Box<Expression>),
    Divide(Box<Expression>, Box<Expression>),
    Modulo(Box<Expression>, Box<Expression>),
    BitwiseOr(Box<Expression>, Box<Expression>),
    BitwiseAnd(Box<Expression>, Box<Expression>),
    BitwiseXor(Box<Expression>, Box<Expression>),
    ShiftLeft(Box<Expression>, Box<Expression>),
    ShiftRight(Box<Expression>, Box<Expression>),
    Equal(Box<Expression>, Box<Expression>),
    NotEqual(Box<Expression>, Box<Expression>),
    More(Box<Expression>, Box<Expression>),
    MoreEqual(Box<Expression>, Box<Expression>),
    Less(Box<Expression>, Box<Expression>),
    LessEqual(Box<Expression>, Box<Expression>),
    Not(Box<Expression>),
    BitwiseNot(Box<Expression>),
    Or(Box<Expression>, Box<Expression>),
    And(Box<Expression>, Box<Expression>),
    Power(Box<Expression>, Box<Expression>),
    /// Post-decrement of the operand, which must be a variable.
    Decrement(Box<Expression>),
    /// Post-increment of the operand, which must be a variable.
    Increment(Box<Expression>),
    /// Assignment of the right operand to the left one, which must be a
    /// variable unless the assignment is dropped as dead.
    Assign(Box<Expression>, Box<Expression>),
    /// A call of `function`, which names its callee with `Function`.
    FunctionCall { function: Box<Expression>, args: Vec<Expression> },
    /// An integer literal.
    NumberLiteral(u64),
    /// The variable at the given position of the function's symbol table.
    Variable(usize),
    /// A call of a library function.
    LibFunction(LibFunc, Vec<Expression>),
    /// The function with the given number in the namespace.
    Function(usize),
}

/// A function of the namespace, as far as expression lowering needs it.
#[derive(Debug)]
pub struct Function {
    /// The function's symbol name.
    pub name: String,
    /// Positions of the variables that the function never reads; an
    /// assignment to one of them is dead.
    pub unused_variables: Vec<usize>,
}

/// The resolved program.
#[derive(Debug)]
pub struct Namespace {
    pub functions: Vec<Function>,
}

/// An assignment to `left` is dead in `func` when `left` is a variable
/// that the function never reads.
pub open spec fn spec_should_remove_assignment(left: Expression, unused: Seq<usize>) -> bool {
    match left {
        Expression::Variable(pos) => unused.contains(pos),
        _ => false,
    }
}

/// Decides whether an assignment to `left` can be dropped in `func`.
pub fn should_remove_assignment(left: &Expression, func: &Function) -> (res: bool)
    ensures
        res == spec_should_remove_assignment(*left, func.unused_variables@),
{
    match left {
        Expression::Variable(pos) => {
            let mut i: usize = 0;
            while i < func.unused_variables.len()
                invariant
                    i <= func.unused_variables.len(),
                    *left == Expression::Variable(*pos),
                    forall|j: int| 0 <= j < i ==> func.unused_variables@[j] != *pos,
                decreases func.unused_variables.len() - i,
            {
                if func.unused_variables[i] == *pos {
                    assert(func.unused_variables@[i as int] == *pos);
                    return true;
                }
                i = i + 1;
            }
            false
        },
        _ => false,
    }
}

/// An assignment is dead exactly when its target is a variable whose
/// position occurs among the function's unused variables: in particular no
/// assignment is dead in a function that reads all its variables.
pub proof fn lemma_dead_only_if_unused(left: Expression, unused: Seq<usize>)
    ensures
        spec_should_remove_assignment(left, unused) <==> (exists|pos: usize, i: int|
            left == Expression::Variable(pos) && 0 <= i < unused.len() && unused[i] == pos),
        unused.len() == 0 ==> !spec_should_remove_assignment(left, unused),
{
    if let Expression::Variable(pos) = left {
        if unused.contains(pos) {
            let i = choose|i: int| 0 <= i < unused.len() && unused[i] == pos;
            assert(left == Expression::Variable(pos) && 0 <= i < unused.len() && unused[i] == pos);
        }
    }
}

} // verus!
