# aetheris

The core of the Aetheris task execution engine, written in Verus: every
function under `src/` carries a `requires`/`ensures` contract that Verus
proves, and the laws the engine keeps across calls stand as public proof
functions (their names begin with `law_`).

## Layout

- `src/config/` — the application settings and their validation, the
  signing-secret decision, configuration versions, branches and merge
  requests, the OpenClaw import, configuration templates and onboarding.
- `src/engine/` — tasks, intents and their validation, breaking tasks into steps
  (by rules or from a model's reply), planning and plan graphs (topological
  order, critical path, parallel batches), running a plan round by round,
  the task queue, scheduling, coordination of agents, plugins, caches, preloading
  and progressive loading.
- `src/llm/` — chat messages and how they are laid out for providers, the
  response cache's settings, the circuit breaker and retry decisions, and
  budget alerts.
- `src/governance/` — data classification, masking, compliance checks, report
  templates and HTML export, and data lineage.
- `src/json.rs`, `src/text.rs` — the JSON value model and the text helpers
  the rest is stated over.
- `src/runtime.rs` — the clock, random identifiers and bytes, and base64:
  outside calls whose results the library only carries.
- `tests/` — the engine's tests, run against the compiled library.
- `app/` — what Verus does not check: reading the environment and files,
  network calls to model providers, serde conversions, and the few places
  that compare floating-point numbers.

Outside calls (regex, md5, sha2, petgraph, chrono, uuid, rand, base64 and a
few std functions) sit behind small trusted wrappers; each one's doc comment
says what its contract claims of the call.
