# tswift

A Swift frontend written and proved in Verus: it lexes and parses Swift
source into a syntax tree, resolves names and types over that tree, checks
`switch` exhaustiveness, renders the tree as an outline or as JSON, reads
package manifests and loads projects, and holds the decisions behind a few
Foundation types.

## Layout

- `src/lexer.rs`, `src/lex_spec.rs`: the tokenizer and the specification it
  is proved against.
- `src/parser.rs`, `src/precedence.rs`: the recursive-descent and Pratt
  parser, and the operator-precedence table built from the file's own
  `operator` and `precedencegroup` declarations.
- `src/syntax.rs`, `src/dump.rs`: the node arena, the cursor API over it,
  and its outline and JSON renderings.
- `src/builder.rs`: the result-builder body checks, the first analysis
  pass.
- `src/resolve.rs`, `src/sema.rs`: the annotate pass (scopes, inferred
  types, diagnostics), the declaration registry and the exhaustiveness check.
- `src/symbols.rs`, `src/project.rs`, `src/decode.rs`: the symbol listing,
  manifest and project loading, and literal and modifier decoding.
- `src/foundation.rs`, `src/session.rs`: `NSString` numeric conversions, and
  the `URLSessionDataTask` lifecycle with its transfer driver.
- `app/`: the serde wire format of the symbol list and the conversions of
  numeric text to floating point, which the verified library does not hold.
- `tests/`: the test suite.
