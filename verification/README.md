# rslogo

A turtle-graphics interpreter for a small Logo dialect, with its language
logic verified in Verus.

## Layout

- `src/` — the verified library.
  - `text.rs`: trimming, splitting on spaces, joining; the round-trip laws.
  - `constant.rs`: command words, operator and comment tokens, the
    records `Func`, `Condition`, `VarMapValue`.
  - `table.rs`: the line tables (hash maps) and the name tables (lists
    with distinct keys).
  - `turtle.rs`: the turtle state, generic over its number type `N`.
  - `compute.rs`: how an operator-first expression combines its operands
    with a running value (`calculate_bystack`), and `parse_end_arg`.
  - `helper.rs`: values, block matching (`add_controlflow`), conditions,
    `MAKE` and `ADDASSIGN`; the laws that blocks pair up and on how
    comparisons relate.
  - `function.rs`: defining procedures and reading call arguments.
  - `parser.rs`: `next_step`, what each line of a program leaves to do.
- `app/main.rs` — the command-line program: arguments, file input, the
  `f32` arithmetic of the language, drawing with `unsvg`, and the loop that
  runs `next_step` line by line.
- `tests/` — tests of the library.

Usage: `rslogo <program.lg> <out.svg|out.png> <height> <width>`.
