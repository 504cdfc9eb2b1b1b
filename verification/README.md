# ocql

The verified core of a QL query toolchain, written in Verus.

- `src/` is the library. Every function carries a contract that Verus proves:
  source management and diagnostics rendering (`source`), declarations and
  types (`def`, `types`, `diagnostics`), namespaces, builtins, the class
  hierarchy and the typing rules of name resolution (`namespace`, `builtins`,
  `class_hierarchy`, `resolve`), the syntax tree of a QL file with the
  collection of its declarations and the resolution of its names and types,
  stated as functions from state to state (`ast`, `collect`, `resolver`), the
  single-file analysis (`database`), the import graph and its
  processing order (`module_graph`, on Tarjan's algorithm in `scc`), the
  relational IR with its lowering, stratification and printing (`mir`, `lir`,
  `lower`, `pretty`), QL pack discovery and import resolution (`paths`,
  `project`, `discover`), the extraction walks that turn the syntax trees of
  JavaScript/TypeScript, Python, Ruby, Rust and Swift files into fact rows
  with locations (`js_extract`, `py_extract`, `rb_extract`, `rs_extract`,
  `sw_extract`, over the tree model in `syntax`), and the helpers of the
  extractors, the language server and the evaluation report (`extractors`,
  `lsp`, `categorize`).
- `app/` holds what touches the file system: walking directories for packs
  and QL files, reading sources, and testing whether candidate files exist.
- `tests/` runs the library on concrete inputs.
