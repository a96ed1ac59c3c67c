# agent_desktop_runtime

The verified core of a desktop-automation runtime and its MCP server.

`src/` is the library, verified with Verus:

- `runtime_events`, `runtime_event_diff`, `grouping`: the bounded drop-oldest bus of
  semantic lifecycle events (process and window generations, accessibility-tree
  invalidation, provider reset) and the diff of two provider snapshots into such events.
- `refs`, `selector`, `profile`, `fuzzy`, `find_profile`, `revalidate`: element
  references, the semantic selector recipe learned from an element, the bounded LRU cache
  of application profiles (whose live references runtime events invalidate while the
  semantic knowledge stays), the warm revalidation of a cached profile against the live
  desktop, which fails closed on ambiguity or identity mismatch, and the lookup's trace.
- `view_state`, `view_delta`, `view_json`, `view_store`: short-lived observation views of
  `list-windows` results, their canonical window state keyed by safe semantic identity,
  deltas between views with their compact JSON encoding and byte limits, and the bounded
  store that expires views and makes them stale on runtime events.
- `batch`, `compact`, `catalog`, `protocol`, `skills`: the plan rules and sequential run
  of batch plans with each entry's delivery disposition, the compact agent API's bounds and summaries, the MCP tool catalog,
  request handling and version negotiation, and the skill resources.
- `model`, `text`: shared data and text primitives.

`app/` is ordinary Rust around the library: process-wide state, the clock, JSON, standard
input and output, and the loops that drive a desktop host. `tests/` exercises the library.
