# solang_sema

Parts of the semantic analysis of a Solidity compiler, written in Verus and
proved against their contracts:

- `diagnostics`, `file`, `namespace`: source locations, diagnostics, source
  files (byte offsets to lines and columns and back), and the parts of the
  namespace that the checks read; a contract keeps its functions in an
  `indexmap` map, read through its keys.
- `strings`, `utf8`, `text`: unescaping string literals, UTF-8 encoding,
  building messages.
- `number`: integers of any size and fractions in lowest terms, as sign and
  big-endian bytes; the arithmetic itself is done by `num-bigint` and
  `num-rational`.
- `literals`: string, hex, number, rational, unit and address literals, and
  the shape of array literals.
- `integers`, `arithmetic`: integer widths and signs, the common type of two
  operands, the type of an integer literal, shift operands.
- `format`: format strings.
- `function_call`, `constructor`, `expression`: which functions a call can
  reach, the call arguments in braces, internal calls and who may make
  them, which contracts create which (kept free of cycles), constructor
  calls on Solana, scopes and mutability.
- `assign`, `function_annotation`: assignments to immutable variables, and
  the diagnostics of function annotations.

`app/` converts between the parse tree and diagnostics of `solang-parser`
and the library's own types.
