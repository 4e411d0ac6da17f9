# vix

The verified core of the Vix build language's toolchain: the exec model and
its two-tier cache, the runner protocol's data, typed document decoding, the
binding registry of the prelude, and the compiler's self-contained pieces
(unit-bearing literals, path literals, command templates, record patterns,
diagnostics), the module-set front (imports, visibility, inline modules,
reference rewriting, prelude injection) and the decisions taken on a lowered
or declared program (the must-use lint, test signatures and attributes,
type-argument inference, trace-check literals, method-call resolution and
the operator table of the lowering), and the module rewriter's walk over the
expression and pattern tree. The functions in `src/` carry
`requires`/`ensures` contracts that Verus proves; the few without one are
private helpers, trusted wrappers and the fake tools' plumbing.

Scope: the parser of the surface syntax is generated from a grammar that is
not part of this library; `src/surface.rs` holds the tree it produces, with
operators and literal values, for a front end to fill. The lowering of that
tree into the IR's node graph is here for value expressions built from
literals, names in scope, parentheses, tuples and arrays, the unary operators and the
arithmetic, collection and short-circuit operators (`src/values.rs`), and in
its decisions elsewhere (`resolve_method_call`, `plan_check`,
`lower_division`). The rest of the lowering (comparisons and equality,
calls, methods, closures, generics, patterns, whole modules) and the
`Compiler` driver are not.

Layout:

- `src/exec.rs`, `src/tools.rs` — trees, plans and their normalization,
  observed worlds and read-sets, `verify`, the two-tier `ExecCache`, and the
  fake tools that exercise it.
- `src/protocol.rs` — the runner protocol's types, hex digests, `ExecTree`.
- `src/decode.rs` — type-directed decoding of JSON and TOML event streams.
- `src/binding.rs`, `src/runtime.rs`, `src/vir.rs` — module paths, the
  builtin binding registry, primitive surfaces, and the value types.
- `src/compiler.rs`, `src/command.rs`, `src/support.rs`,
  `src/diagnostic.rs` — literals, names in scope, patterns, command
  templates and diagnostics.
- `src/modules.rs`, `src/prelude.rs` — declared items, import resolution and
  visibility, root-inline module extraction, the reference rewriter's path
  decisions, and if-absent prelude injection.
- `src/surface.rs` — the expression and pattern tree and the rewriter's
  scope-aware walk over it.
- `src/methods.rs`, `src/lowering.rs`, `src/values.rs` — method-call
  resolution, the IR node list and the operators' and literals' nodes, and
  the lowering of value expressions.
- `src/signature.rs`, `src/inference.rs`, `src/attributes.rs`,
  `src/trace.rs`, `src/lint.rs` — source types and signatures, type-argument
  inference, `#[test]` metadata, trace-check literals, and the must-use lint.
- `src/fetch.rs` — fetch backends and checksum checks.
- `src/text.rs`, `src/strmap.rs`, `src/bytes.rs`, `src/sorting.rs` — the
  string, ordered-map, byte and sorting helpers the rest is proved with.
- `app/` — `Display` copies of library types and the asynchronous runner
  interface.
- `tests/` — tests on concrete values.
