# arithma_core

The verified core of a symbolic mathematics engine, written in Verus.

- `src/` is the library. Every function there carries a contract that Verus
  proves: exact integers (`integer`), lossless `i64` arithmetic
  (`arithmetic`); the expression tree, its mathematical model and the copy
  that keeps it (`expression`, `expression::model`), the operator catalogue
  (`function`); the iterative differentiator, proved to return exactly the
  derivative that the sum, product, quotient, power and chain rules give
  (`calculus`); the canonical order of literals, and the emitter's fragment
  combinators and per-node renderer (`expression`); the lexer, the
  recursive-descent grammar and the free variables of a tree (`parse`); the
  constants table with its ASCII aliases and document loader (`constants`); a
  shape-checked matrix container, its cellwise and product algebra over
  expressions, and the permutation enumeration behind determinants
  (`matrix`); the fallback counters and the backend registry (`fallback`,
  `external`); and the stable identifier tables (`lookup`). Properties that
  span several operations are proved as `law_*` proof functions beside the
  operations.
- `tests/` exercises the library from outside.
- `app/` holds what works in floating point or on process-wide state: numeric
  evaluation, exact construction from `f64`, integration (whose power rules
  decide on `f64` values), the Fourier approximation, interval enclosures,
  root finding, rendering whole trees (number leaves are formatted from
  `f64`), reading expressions from text, the serde and error-trait forms of
  the library's types and the global constants registry.
