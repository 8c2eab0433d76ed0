# tracing_toolbox

Verified building blocks for relaying and inspecting `tracing` data:

- `types`, `values`: call site data, traced values and named value lists carried by
  tracing events.
- `consumer`: validation of received tracing events against the known call sites and alive
  spans, and the decision what to dispatch for each of them; persistence of call sites and
  spans.
- `normalize`: normalization of event sequences for snapshot testing.
- `arena`: deduplication of call site data.
- `sync`: one-time announcement of call sites on the sending side, and sequential call site
  IDs.
- `capture`: storage of captured spans and events with their hierarchy, and handles to query
  it (parents, ancestors, children, depth-first descendants, events).
- `hierarchy`: laws of the captured span hierarchy.
- `predicates`: predicates on captured spans and events, their combinations, and a scanner
  finding matching items.
- `labels`, `metrics`: parsing of metric update events and their labels.
- `recorder`: bookkeeping of a metrics recorder reporting updates as tracing events.

`src/` is verified with Verus. `app/` connects the library with `tracing`, `tracing-subscriber`,
`serde` and `metrics`: the subscriber and layer implementations, dynamic metadata, the
replaying of dispatch actions, serializable copies of the event types and the recorder router.
