# ola_lang code generation steps

Two lowering steps of the Ola compiler, verified with Verus.

- `src/mach.rs`, `src/insertv.rs`: Ola machine moves, and the lowering of
  `insertvalue` on a four-lane aggregate to one move per lane. A proof
  shows that reading a lane back after the moves gives the inserted value
  at the index and the old lane elsewhere.
- `src/ast.rs`, `src/ir.rs`, `src/expression.rs`: resolved expressions and
  their lowering to a straight-line SSA instruction sequence. The contract
  of `expression` is the compositional lowering `lower`; proofs show
  that lowering only appends, that every use follows its definition, and
  `can_lower` decides exactly what lowering requires.
- `src/semantics.rs`: a reference semantics of that IR, with the proofs
  that a read after an assignment gives the assigned value and that `x++`
  / `x--` change the variable's slot by one.
- `app/lib.rs`: the compiler-facing glue: `anyhow` errors, and the LLVM
  builder calls (through `inkwell`) that materialise the lowered IR.
