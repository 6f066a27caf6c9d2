# pop_types

The static type layer of the Pop compiler: the interned semantic type model,
its canonical identities, constraint inference, the bootstrap vocabulary,
attributes, constant evaluation and the checks built on them. Every function
in `src/` carries a Verus contract and is verified.

## Layout

- `src/ids.rs`, `kinds.rs`, `numeric.rs`, `numeric_order.rs`, `effects.rs`,
  `lifetime.rs`, `views.rs`, `ffi.rs`, `classes.rs`: identities and the closed
  value vocabularies that types carry.
- `src/semantic.rs`, `arena.rs`, `id_sets.rs`, `specializations.rs`,
  `substitution.rs`: the semantic type model and the arena that interns each
  type once, normalizing unions and records.
- `src/canonical.rs`, `descriptors.rs`: structural identities and their text
  descriptors, with the proof that a descriptor identifies its type.
- `src/inference.rs`: equality-constraint inference over type variables.
- `src/pattern_inference.rs`: inference of generic type arguments by
  matching a parameter type against an argument type.
- `src/tsv.rs`, `bootstrap.rs`: parsing and validating the bootstrap schema
  documents.
- `src/attributes.rs`, `attribute_queries.rs`, `attribute_arguments.rs`:
  attribute definitions, usage policies, attachment validation, compile-time
  queries, and the binding of an attribute use's arguments.
- `src/constants.rs`, `constant_expressions.rs`: typed constants and the
  evaluation of constant expressions for field defaults.
- `src/actors.rs`, `nominal_bounds.rs`, `match_arms.rs`: checks on types
  used by the body checker.
- `src/laws.rs`: properties that relate several operations.

## Floating point

Constants keep a float as its exact IEEE bit pattern. Parsing a float literal
and float arithmetic are left to the host: an evaluation that needs one stops
with the request, and is run again with the host's answers so far.
`app/float.rs` answers those requests with Rust's floats and runs that loop.

## app/

Host-side companions of the library: the float answers above, `Display`
messages for the library's errors, and the serde form of a type arena.

## Not in this crate

The compiler's front end supplies what the rest of the type layer works
from: syntax trees, name resolution and diagnostics. Those crates, the typed
body representation and the statement checker are not part of this
repository, and neither are the bootstrap schema documents that the compiler
embeds. What depends on them is therefore not here:

- signature resolution (`SignatureResolver`), which walks type syntax and
  resolved names; with it the substitution of type parameters that creates
  instances of generic unions, errors and interfaces, whose templates come
  from resolved declarations (the arena-only substitution is in
  `src/substitution.rs`);
- body checking (`BodyChecker`): names, calls, aggregates, patterns,
  operators and FFI buffer calls, which read syntax and build typed bodies;
- capture analysis and the definite-return analysis, which walk typed
  bodies;
- class and interface resolution, which reads declarations;
- `RuntimeConstant`, and the embedded bootstrap schema
  (`embedded_bootstrap_schema`); `bootstrap_schema` parses any schema
  documents handed to it instead.

The decisions those parts make on values the type layer owns (generic
argument inference, operator
result types, nominal bounds, match arms, FFI ABI rules, actor message
safety, constant evaluation, attribute binding) are in `src/` and verified.
