# vrecall

A benchmark of the recall of ArangoDB's vector indexes. `vrecall setup` loads a vector dataset
(random, or an HDF5 file), inserts it and builds an index; `vrecall bench` measures recall@K,
score gaps and latency, either over a sweep of `nProbe`, for a target recall, or, for a
vector-graph index, over a sweep of the cutoffs K.

The project has two parts.

- `src/` is the library, verified with Verus: index parameters and their validation, the plan
  and the index definition, the requests to the server and the reading of its replies, the
  queries, the layout of ground-truth files, recall, percentiles and latency bands, how work is
  split and put together again, the reports, and the order in which a run takes its steps.
- `app/` is the command around it: arguments, files, the network, threads, the terminal, and
  floating-point figures.

The library holds no floating-point numbers. Scores and recalls that have to be compared are
decimal texts, recall is a pair of counts, latencies are whole nanoseconds and percentiles whole
hundredths of a nanosecond; `app/` turns them into the figures that are shown. Where an outcome
depends on how doubles are rounded, `double.rs` computes with their bits as integers.

JSON text is read and written by `serde_json`, letters are lowered and paths are taken apart and
joined by the standard library, and a fresh seed comes from `rand`. What the proofs take on trust
about these calls stands above each of them, in `json.rs`, `metric.rs`, `datasets.rs`, `setup.rs`
and `text.rs`.
