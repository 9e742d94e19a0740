# aichat pipelines and auto-memory, verified

A Verus library for the deterministic parts of aichat's role pipelines and of its
auto-memory preamble, with the I/O around them in `app/`.

- `src/config.rs` — the configuration that preflight reads: models, roles, agents, macros,
  and how a name resolves.
- `src/pipeline.rs` — the pipeline DAG (stages, `parallel:`, `switch:`) and its structural
  checks.
- `src/preflight.rs` — preflight validation of model capabilities, of a pipeline's stages
  and of the DAG's structure.
- `src/cycles.rs` — detection of pipeline roles that reference themselves, with the proof
  that a cycle is reported exactly when one exists.
- `src/memory.rs` — the 200-line / 8-KiB cap of `MEMORY.md`, its injection into the system
  prompt, and the cap's laws.
- `src/pipe.rs` — stage parsing, the retry / fallback-model state machine of a stage,
  branch merges and switch routing.
- `src/json.rs` — what the library takes from serde_json.
- `src/text.rs`, `src/error.rs` — text helpers and the error type.
- `app/` — environment and file access, YAML pipeline definitions, and the asynchronous
  runner that performs the library's decisions.
