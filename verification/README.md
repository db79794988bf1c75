# tools

Reads the cluster logs and the metrics archive of zkVM benchmark runs and assembles them into one
benchmark document. Two backends are known, zisk and openvm.

- `src/` is the library: the readers of the cluster logs, the binding of proof results to logs, the
  assembly of the document, and the merge of runs into it. Every item is verified with Verus, and
  `src/laws/` states what holds across functions.
- `app/` is the command line program around it: files, JSON, and the figures that are computed in
  floating point.
- `tests/` runs the library on logs and documents.

Regular expressions, timestamps, compression, and archives are the work of the `regex`, `jiff`,
`zstd`, `tar`, and `flate2` crates. What the library takes from them on trust is declared next to the
calls, in `src/pattern.rs`, `src/log.rs`, `src/output.rs`, `src/metrics.rs`, and `src/text.rs`.
