# oxc_node

The logic of a Node.js loader that transforms TypeScript with oxc, as a
library verified with Verus.

* `src/` is the verified library: `file:` URL and path conversion (plain
  and Windows rules), the decisions of the `resolve` and `load` hooks
  under either set of rules,
  the choice of `tsconfig.json` and what its compiler options make of a
  transform, the transform of source text through oxc into JavaScript
  with a source map (types stripped; CommonJS output for the transform
  API, module syntax kept for the load hook), the synthesis of ES
  modules from JSON files, and TypeScript
  declarations for WebAssembly exports. Each public function states its
  result in its contract; the `law_` proof functions state what holds
  across functions.
* `app/` holds the napi bindings: it reads the environment and the file
  system, picks the Windows rules on Windows, calls the resolver and the
  next hooks, and hands the library plain values.
* `tests/` runs the library on concrete inputs.
