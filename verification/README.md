# agent-harness

An evented agent harness: a face (the terminal), a brain (the agent loop)
and a limb (the tools), plus two experiments built on them.

- `src/` is the library, verified with Verus. Every decision the harness
  makes stands there with its contract: the command line, the session
  journal and its replay, the model's view of a session and its dump, the
  brain's turn protocol, the limb's plans, and, for the structured
  concurrency experiment, parsing a `task` call, scheduling its children,
  cutting a child's context from its parent's, the retry schedule, the
  ledger of a run and the benchmark's discipline score. Laws that span
  several functions are public proof functions (`lemma_*`).
- `app/` is the program around it: `main`, files, processes, HTTP, the
  clock, serialization, and the loops that perform what the library
  decides. It is ordinary Rust.
- `tests/` exercises the library on concrete values.
