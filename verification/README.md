# metasafe

The decision logic of MetaSafe, a compiler extension that keeps the metadata
of smart pointers in a separate compartment, written in Verus and verified.

The compiler driver describes what it sees in plain values and the library
decides what to record and how to rewrite the program:

- `hir_analysis`: per-crate records of structs that hold smart pointers, their
  literals, and calls into foreign code; `analysis_records` reads back what one
  crate's compilation needs of them.
- `field_records`: the field-level records of the same walk.
- `ast_rewrite`: the shadow box field of boxed structs and its initializer in
  their literals; calls into foreign code wrapped to run on a separate stack.
- `callgraph`: numbered call sites and, per callee, the sites that call it.
- `mir`, `shadows`, `validators`: the two passes over a function's basic blocks
  (shadow memory set up on entry; validators run after unsafe smart-pointer
  methods).
- `runtime`: the shadow memory's placement and the foreign-call hook.
- `collections`: the small maps and sets that all of the above are built on.
- `laws`: properties that span several operations.

`app/` holds what the library leaves out: the JSON files of the analysis, the
mapping of the shadow memory, and the checks of the library's preconditions
before the driver calls it.
