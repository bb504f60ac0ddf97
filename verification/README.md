# line_input

A single-line text input buffer with a cursor, verified with Verus.

The editor keeps its content as a `String` and its cursor as a byte offset.
Every operation is proved to keep the cursor on a UTF-8 char boundary, and to
act on the content as its model in `src/model.rs` says, where the cursor is
counted in chars.

- `src/encoding.rs`: byte lengths of char sequences (over vstd's UTF-8
  model), char boundaries, and the text operations built on them.
- `src/skip.rs`: walking a boundary across a run of chars that satisfy a
  predicate.
- `src/class.rs`: word chars and whitespace.
- `src/keys.rs`: key codes, modifier sets and key events.
- `src/model.rs`: the editor as a value, each operation and each key binding.
- `src/editor.rs`: `LineEditor` and its operations.
- `src/laws.rs`: properties across operations.
- `app/lib.rs`: turns crossterm's terminal key events into the editor's.
