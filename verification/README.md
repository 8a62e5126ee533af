# taped

A lightweight cursor for non-linear parsing of slices, written in Verus.

`Tape` wraps a slice with a position cursor and offers scanning,
backtracking and consuming operations that never allocate. Every public
operation carries a contract that Verus proves.

Layout:

- `src/tape.rs`: the `Tape` type, its spec accessors (`data`, `cursor`,
  `elem_at`) and the element-generic operations (`cur`, `next`, `peek`,
  `poll`, `consume`, `seek`, `is_at`, ...).
- `src/bytes.rs`: operations on byte tapes: clearance around a character,
  paragraph-bounded scanning, line prefixes and indentation.
- `src/search.rs`: byte and substring search through the `memchr` crate,
  behind small trusted wrappers whose contracts restate its documentation.
- `src/traits.rs`: whitespace classification of bytes, slice trimming and
  the `to_tape` conversion.
- `src/laws.rs`: properties that relate several operations.
- `tests/`: executable tests on concrete inputs.
