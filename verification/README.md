# bit_core

A library for `.bit` documents: plain-text plans made of groups, tasks,
gates, schema definitions, queries, flows and a few more constructs. It
reads a document into a tree of nodes, writes it back (`render`, `format`,
Markdown conversion), lowers it to a graph of constructs (`ir`), indexes its
tasks, references and variables (`index`, `context`), and evaluates gates
and expressions (`gate`, `eval`, `interpret`).

Every module under `src/` is verified: each public function
states in its contract what it returns, over spec functions of the
document's text and nodes.

Layout:

- `src/text.rs`, `src/line.rs`, `src/spans.rs`, `src/lex.rs`: characters,
  single lines, inline spans and tokens.
- `src/blocks.rs`, `src/parse.rs`, `src/canon.rs`: reading a document's
  lines into nodes; `Sync` groups become sync declarations and the
  `Validates`, `Constraint`, `Schema`, `Frontier`, `Pressure Effect`,
  `Unit Cell` and `Symmetry` sections become lattice nodes; a `%Name` line
  opens a project scope. Lines that open a `project:`, `commands:`,
  `issue:` or `comment:` block are read as prose lines.
- `src/roundtrip.rs`: for documents of group headers, task lines and
  variables, what `render` and `format` write parses back to a document
  that is written the same way.
- `src/render.rs`, `src/format.rs`, `src/convert.rs`: writing nodes back
  as text.
- `src/ir.rs`, `src/index.rs`, `src/context.rs`, `src/query.rs`,
  `src/schema_check.rs`, `src/query_check.rs`: the construct graph, the
  task index, agent contexts, queries, schema checks and the outcome of
  query checks.
- `src/gate.rs`, `src/eval.rs`, `src/interpret.rs`: gates, expressions and
  the step-by-step interpreter.
- `app/`: ordinary Rust around the library: JSON through `serde_json`,
  floating-point evaluation of expressions and gates, the record store and
  the workspace grid.
- `tests/`: the test suite.
