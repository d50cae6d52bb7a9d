# taskfile_runner

`run` is a taskfile runner for `Taskfile.yaml` / `Taskfile.yml` (taskfile.dev
v3 subset) and `Taskfile.syon`.  The library under `src/` is written in Verus:
every function carries a `requires` / `ensures` contract that Verus proves.

## Layout

- `src/schema.rs` — the taskfile types and their mathematical views.
- `src/ordered_map.rs` — the `indexmap` maps of the schema, modelled as
  sequences of `(key, value)` pairs in insertion order.
- `src/syon.rs` — the mapping of a parsed SYON document onto the schema.
- `src/loader.rs`, `src/paths.rs` — taskfile detection (from a directory up to
  the root) and the merging of included taskfiles under their namespaces.
- `src/graph.rs`, `src/deps.rs` — the tasks that a task needs and the order in
  which they run (dependencies first, cycles rejected), over `petgraph`.
- `src/vars.rs` — variable scopes, `KEY=VALUE` arguments, `{{.NAME}}`
  substitution (over `regex`), Python command lines.
- `src/runner.rs` — a run as a state machine: it decides, the caller performs
  the shell commands and reports back.
- `src/cli.rs` — what the command line asks for, task listing and summary.
- `app/` — the `run` binary: argument parsing, file and process I/O, YAML and
  SYON parsing, and the loops that drive the state machines of the library.
- `tests/` — tests of the library.
