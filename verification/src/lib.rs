//! Code generation steps of the Ola compiler: lowering of IR aggregate
//! updates to Ola machine moves, and lowering of source expressions to a
//! sequence of IR instructions.
pub mod ast;
pub mod expression;
pub mod insertv;
pub mod ir;
pub mod mach;
pub mod semantics;
