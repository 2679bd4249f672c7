# turso-converge

Declarative schema convergence for Turso databases. You write down the schema that a
database should have; the library finds what is different, plans the statements that
lead there, and says what to ask of the database, one request at a time.

- `src/` is the library. Verus proves every function against its contract: the normal
  form of SQL text, the reading of DDL, the difference of two schemas, the plan, its
  execution, and the whole convergence with its lease, its fast path, its data migrations
  and its recovery. The modules that end in `_laws` state what holds of all of it.
  Two things are taken on trust: the digest of the `blake3` crate (`hash.rs`) and
  `String::push` of std (`text.rs`).
- `app/` performs the requests over a connection of the `turso` crate and holds the
  command line: `validate`, `diff`, `plan`, `check`, `apply`, and `extract` (also
  called `dump`).
- `tests/` runs the library: on plain values, on made-up answers, and against databases
  in memory.
