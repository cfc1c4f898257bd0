# codira

Machine-checked core of the Codira self-healing runtime and of several
compiler-side checks, written in Verus.

- `src/` is the verified library: data structures (the repairable binary
  search tree, the reversible register file, the recovery graph, the
  supervisor tree, the fault-event collector), the healing engine's
  decisions (strategy order, feasibility, the attempt loop, backoff), the
  `@heal` contract checker and its attribute readers, cast legality,
  `comptime` folding, the lowering of function bodies to typed operation
  bodies, dependency-cycle detection among module-level bindings (Tarjan's
  algorithm, proved to report exactly the cycles of the dependency graph),
  the checks over a module's top-level items, name resolution through a
  stack of scopes, the lowering of written types into a type-reference
  arena and of a function's signature into its data and its item-tree
  entry, the lowering of refinement predicates to solver terms, `data struct`
  derivation, completion rendering, body validators and diagnostic
  messages. Public functions state their results in their
  contracts, except where a result depends on other threads (the atomic
  strategy slot of `patcher`), which no contract can observe; laws relating
  several operations are public proof functions named `law_*`.
- `app/` is ordinary Rust around it: locks shared between threads, the
  monotonic clock, random sampling, floating-point statistics, structured
  exception handling and the LLD foreign interface.
- `tests/` exercises the library on concrete values.
