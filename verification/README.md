# despatma_dependency_container

A verified model of the code generator behind a dependency-injection
container attribute: an annotated `impl` block registers one function per
dependency, and the generator emits a struct that stores the scoped and
singleton dependencies, constructors for a container and its scopes, and an
accessor plus a `create_` function per dependency.

Layout:

- `src/input.rs`: the annotated `impl` block, as source text.
- `src/lifetime.rs`: dependency lifetimes and their comparison.
- `src/processing.rs`: the container while it is processed; children refer
  to dependencies by position.
- `src/visitor.rs`: passes over a processed container and their order.
- `src/output.rs`: the generated container and the conversion to it.
- `src/codegen.rs`: the generated source text.
- `src/wiring.rs`: diagnosis of requested but unregistered dependencies,
  with a spelling suggestion computed through `strsim`.
- `src/text.rs`: string joining used by the above.
- `app/lib.rs`: the `syn`, `quote` and `proc_macro_error` side.
