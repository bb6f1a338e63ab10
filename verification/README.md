# adc — verified core of a declarative CAD checker

`adc` compiles a declarative design (parts made of features, anchors,
assemblies of mated instances, assertions) to B-rep geometry and checks the
assertions, with three-valued results (Pass / Fail / Inconclusive) and
deterministic output. This crate holds the parts of that toolchain that do
not depend on floating-point geometry, written in Verus and proved against
their contracts.

## Layout

- `src/` — the verified library
  - `status`, `check`, `report`: check statuses, exit codes, narrowing
    decisions, result selection, the Markdown report's cells and rows
  - `topo`, `assembly`: the placement order of assembly instances
    (topological, least id first, independent of the order of the mates)
    and the degrees-of-freedom report
  - `ledger`, `compile`: the provides ledger of semantic anchors, carried
    forward through each operation's history, and anchor binding
  - `patch`, `digest`, `mcp`: design patches (unique-match edits,
    optimistic lock on the SHA-256 of the source, gated writes)
  - `cache`: the parameters a canonical text refers to, and cache keys
  - `diff`: differences between two revisions of a design
  - `cli`, `text`: command-line parsing and text helpers
- `tests/` — tests of the library on concrete values
- `app/` — the programs around the library: the `adc` command line and the
  `adc-mcp` server (started under that name), file and process I/O, JSON,
  and the floating-point geometry on OCCT (through the `opencascade` crate)
  together with the design schema of the `adc_schema` crate

Laws of the library are public proof functions named `law_*`.
