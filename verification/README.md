# taintflow

A static taint analysis engine for Python and Java, written in Verus.

`src/` is the verified library:

- `ir`, `common`, `accesspath`, `pointsto`, `context` — the three-address
  program representation, access paths, heap objects and analysis contexts;
- `parser`, `semantic`, `python`, `java`, `frontend` — turning source text
  into that representation (Python through tree-sitter);
- `cfg`, `callgraph`, `icfg` — control-flow, call and interprocedural graphs;
- `solver`, `alias`, `taint` — the IFDS tabulation solver, the alias
  analysis and the taint problem over it;
- `rules`, `rulepacks` — sources, sinks and sanitizers, and the embedded
  rule packs;
- `reporting`, `engine`, `scheduler`, `cli`, `benchmarks` — findings and
  reports, the pipeline over a repository, task ordering, the command-line
  decisions, and benchmark scoring.

`app/` is the `taintflow` command: argument handling, reading and writing
files, JSON/YAML/TOML/SARIF through serde, and the thread pool.

`tests/` runs the library on concrete inputs.
