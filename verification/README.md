# its_hub_rs

An inference-time scaling gateway: an OpenAI-compatible chat completion
server that answers each request by sampling an upstream model several times
(the request's `budget`) and selecting a response by self-consistency voting,
best-of-n scoring, beam search, particle filtering or planning.

## Layout

- `src/` — the verified library. Every function carries a contract that
  Verus proves; the outside crates it calls (`regex`, `serde_json`, `rand`,
  `reqwest`'s header check) sit behind small trusted wrappers whose
  contracts are stated next to them.
  - `voting`, `self_consistency`: answer projection and majority voting,
    flat and hierarchical (tool calls).
  - `best_of_n`, `search`, `planning`, `judge`: the bookkeeping of the other
    algorithms — de-duplication, beams and particles, budgets and prompts,
    judge prompts and score extraction.
  - `cache`: the response cache with a time to live and least-recently-used
    eviction.
  - `client`, `providers`, `errors`: request bodies, provider settings,
    error classification and retry back-off.
  - `gateway`, `configuration`, `api`: request validation, configuration
    planning and the answers of the HTTP endpoints.
  - `messages`, `json`, `canonical`, `text`, `pattern`: the data model and
    text helpers.
- `app/` — the server binary: HTTP handling (axum), upstream calls
  (reqwest), metrics, and the floating-point parts of scoring.
- `tests/` — tests of the library.
