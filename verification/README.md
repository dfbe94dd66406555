# parano1d_permanode

The verified core of a Parano1d permanode: a program that runs next to a
Parano1d node, records every block body before the node prunes it, and
serves the recorded history as a JSON API.

- `src/` is the library, proved with Verus: the mirrored consensus rules
  (emission schedule, fee model), the decoder that binds a raw block body
  to its canonical header and derives the reported fields, the checks a
  body taken over from another permanode must pass, the indexer's
  decisions (what to ingest, re-check, store, record as a gap or retry),
  the decoder self-check, the API's derived figures, and CSV formatting.
- `tests/` runs the library on concrete values.
- `app/` is the program around it: command line, config file, SQLite,
  the node's JSON-RPC, the HTTP server and the CSV files.
