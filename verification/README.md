# combine_latest

Stream combinators that yield the latest item of each input stream, with the decisions behind
them verified by Verus.

- `src/history.rs` — the model: a history is the sequence of items the merged input streams
  delivered, each tagged with the slot of its stream; what each combinator yields for a history
  (`combine_trace`, `opt_trace`, `with_latest_trace`).
- `src/latest.rs` — `LatestValues`, the cache of the latest item per stream, and the step
  functions that decide what `combine_latest`, `combine_latest_opt`, `with_latest_from` and the
  reference-passing `map_*` variants yield after each item.
- `src/replay.rs` — the combinators replayed over a finite history, proved to yield the model's
  traces.
- `src/laws.rs` — laws relating the combinators over every history.
- `app/` — the async stream adapters (traits for tuples of 2 to 12 streams and free functions
  for 2 to 4), which merge the input streams with `futures_util::stream::select` and hand every
  item to the verified cache.
