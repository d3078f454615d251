# Garnish runtime, verified

A runtime for the Garnish expression language, written in Verus: executable Rust
whose behaviour is stated in `requires`/`ensures` contracts and proved.

A runtime holds a data area of values (units, integers, characters, character
lists, symbols, expressions, external methods, pairs, partial applications,
ranges, slices, lists and links of chains), registers that refer to those values, stacks of
inputs, results, list starts, call frames and iterations, and the instructions
of a program. Executing an instruction is specified as a transition of the
runtime's mathematical view (`RuntimeView`); every transition keeps the
runtime's invariant (`RuntimeView::wf`).

A host hands values in through `set_input` (an `ExpressionValue` with the values
it is made of and its symbol names) and answers names and external methods
through an `ExpressionContext`. The contracts say which name, runtime and input
the context is asked with, and that its answer is what the runtime stores; a
context may state what its answers are through the trait's `resolves_to` and
`executes_to`.

Layout of `src/`:

- `data.rs`, `runtime.rs`: values, the runtime, its view, invariant and primitives.
- `instruction.rs`, `execute.rs`, `instruction_iter.rs`: the instruction set, the
  effect of each instruction, and execution one instruction at a time.
- `math.rs`, `bitwise.rs`, `logical.rs`, `comparison.rs`, `range.rs`, `pair.rs`,
  `lists.rs`, `access.rs`, `apply.rs`, `cast.rs`, `iterate.rs`, `conditional.rs`,
  `input.rs`, `put.rs`, `resolve.rs`, `invoke.rs`, `context.rs`: the operations.
- `expression_data.rs`, `result.rs`: encoded values exchanged with hosts, and
  runtime results and errors.
- `laws.rs`: properties that relate several operations.

`tests/` runs programs built instruction by instruction and checks their results.
