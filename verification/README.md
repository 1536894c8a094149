# chic_consteval

The compile-time evaluation and lowering helpers of the Chic compiler, written in Verus:
each function carries a contract over mathematical models (sequences of characters for
strings, `ConstModel` for constant values, `Seq`/`Map` views for collections) and is proved
against it.

Layout of `src/`:

- `text`, `values`, `types`, `ast`, `layout`: strings, constant values and their models,
  type expressions, the expression tree and type layouts.
- `environment`, `cache`, `labels`, `debug`, `diagnostics`: evaluation scopes and frames,
  memo caches and their keys, value labels and diagnostic renderings.
- `ops`, `symbols`, `eval`, `lookup`, `intrinsics`, `interp`: operators on constants, the
  symbol index, the evaluation context, name and function resolution, intrinsics
  (`sizeof`, `alignof`, `reflect<T>()`, decimal dispatch) and the expression and statement
  evaluator.
- `quote`, `render`, `captures`: quoting expressions into `Std::Meta::QuoteNode` trees, their
  spans, hygiene seeds and capture lists.
- `reflection`: reflection descriptors and their reflected values.
- `initializer`, `lowering`, `constructors`, `foreach`, `guards`: object-initializer parsing,
  attribute handling during lowering, the field-initialization dataflow of constructors,
  `foreach` bindings and match-arm guards.
- `laws`: properties that relate several operations (memo cache, frames, equality,
  comparison, negation).

The evaluator's contracts fix its result for expressions built from literals, operators,
names in scope and constants already evaluated, and for statements, function bodies, calls,
constants and quotes made of them. Each such evaluation takes at most a stated number of fuel
steps (one per expression node it evaluates); the fuel-exhaustion error comes only once the
fuel is used up, so with more fuel left than those steps the result is exactly the stated
one. A member path that names a constant already evaluated reads its value. Other member
reads, reads of constants not yet evaluated, and assignments are evaluated but their values
are not stated.

`tests/` holds the tests, run against the compiled library.
