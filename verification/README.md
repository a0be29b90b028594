# keel

KEEL is a persistent agent substrate: it routes each turn to a model tier, verifies the output
against assertions no model authored, keeps a ringed, budgeted memory, and maintains that memory
on its own. This crate is its core, written in Verus.

- `src/` is the verified library: routing, the verdict fold and the oracles (the JSON-schema gate
  included), privacy masking, the change gates, memory assembly and maintenance, the prompts, the
  wire bodies of the model adapters, and the decisions of the command line, the daemon and the
  turn loop. Each public function states its result in its contract; the laws the library keeps
  stand as public proof functions (`lemma_*`).
- `app/` is the wiring around it: the command line, HTTP and subprocess calls, files and SQLite,
  the async turn loop, and the floating-point benches and cost arithmetic.
- `tests/` runs the library on concrete values.
