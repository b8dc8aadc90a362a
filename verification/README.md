# cx

The front end and tooling of Cx, a small systems language for game engines,
written in Verus: every function under `src/` carries a contract that Verus
proves.

- `src/frontend/lexer.rs` — source text to tokens with byte spans; the whole
  token grammar is a spec function (`lex_outcome`) that `tok_collector` is
  proved to follow.
- `src/frontend/parser.rs` — tokens to syntax tree by recursive descent;
  `parse_program` and `parse_expr` are proved against the grammar written
  as spec functions (`p_program`, `p_level`).
- `src/operators.rs`, `src/interpreter.rs` — run-time values, the binary
  operators with three-valued `Unknown` logic, and the tree-walking
  interpreter, proved against `op_rule`, `eval_spec`, `exec_spec` and
  `call_spec`. It runs declarations, assignments, prints, returns, blocks
  (whose scope always closes), handles (`HandleNew`/`HandleVal`/`HandleDrop`
  over the generation-checked registry, a dropped handle reading as stale)
  and calls of the program's functions with typed, `.copy` and `.copy.free`
  parameters (a `.copy` parameter's value returns to the caller's variable
  when the call's scope closes), `while`, `for` and `loop` with `break` and
  `continue`, and `when` over literal, range, enum-variant and catch-all
  patterns. Calls nest, and loops iterate, at most as far as the fuel given
  allows. Float arithmetic is handed back to the caller (`Stop::Float`);
  group patterns, field access, `copy_into` and template expansion stop
  with `Stop::Unsupported`.
- `src/semantic_run.rs` — running the analysed program (blocks, `while`,
  `for`, `loop`, `break`, `continue`, `when`) on the same scopes, proved
  against `sem_exec`; every loop is given a bound on its iterations.
  Function calls, field access and handles stop with `Stop::Unsupported`
  there.
- `src/frontend/semantic.rs`, `rules.rs`, `model.rs`, `laws.rs` — semantic
  analysis of the syntax tree (scopes, bindings, types, casts, enums,
  `when`), specified by `program_spec` and its laws.
- `src/handle.rs`, `src/arena.rs` — generational handles with stale-handle
  detection, and bump arenas.
- `src/ir/`, `src/backend/` — the IR data model and the Cranelift lowering
  skeleton with its error messages.
- `src/diff_harness.rs` — the differential test harness's data model:
  feature categories, sidecar expectations, rejection-shape annotations and
  JIT parity verdicts.
- `src/diagnostics.rs`, `src/text.rs`, `src/runtime.rs` — message texts,
  source locations, text helpers and `{NAME}` template scanning.

`app/` holds the command-line driver and the harness's process and file
work; `tests/` holds the tests.
