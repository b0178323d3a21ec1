# langgraph

A library for building and running state graphs: nodes that read and write a
shared state, joined by direct and conditional edges, run in topological
order, level by level, or step by step with interrupts and breakpoints.
Each function states its behaviour in a `requires` / `ensures` contract that
Verus proves.

## Layout

- `src/graph/`: graphs, the builder, conditions and conditional routing,
  subgraphs.
- `src/engine/`: traversal orders, dependency levels, node execution,
  interrupt and breakpoint runs, the order-independence of runs, snapshots
  and rollback, rate limiting, circuit breaking, tracing.
- `src/state/`: state data, reducers, channels, versioning, schemas and
  validation.
- `src/security/`: API keys, JWT tokens, authentication, audit records.
- `src/json.rs`, `src/keyed_map.rs`, `src/text.rs`, `src/clock.rs`: the
  value model, an insertion-ordered string map, text helpers, the clock.
- `tests/`: tests run against the compiled library.
- `app/`: the asynchronous runtime around the library (waiting, channels,
  callbacks) and what computes with floating-point numbers.
