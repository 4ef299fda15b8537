# tangled

A chunked vector: a fast-access front buffer followed by separately owned
chunks. A prefix table of running element counts locates an element by its
flat index (binary search), and a borrow table records, per chunk slot,
whether the chunk is lent out shared (with a count) or exclusively.

- `src/tangled.rs`: the vector, its shared and exclusive views, chunk
  handles, the two iterators, and the laws (locating by the prefix table,
  indexing inverting it, appending, read-after-write, loans blocking drops,
  iteration order for both iterators). A verified caller that uses an
  exclusive view or a writing iterator brings
  `broadcast use tangled::tangled::group_view_resolution;` into scope to
  learn what the vector holds once the view is done.
- `src/tangled_indexing.rs`: the locating part on its own, with the lookup
  table chosen by the indexing mode.
- `src/worker.rs`, `src/borrow.rs`, `src/commands.rs`, `src/tangled_inner.rs`:
  requests sent over `crossbeam-channel` to the thread that owns a vector.
- `src/channel.rs`: the calls into `crossbeam-channel`, with what is assumed
  of them.
- `src/config.rs`, `src/config_inner.rs` and the small enum modules: settings.
- `app/main.rs`: a small program that measures the machine's parallelism,
  builds a vector and prints it.
