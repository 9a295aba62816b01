# red_js_interpreter

The verified core of a small JavaScript interpreter and of its Test262
runner, written in Verus.

- `src/` is the library. Its functions carry contracts that Verus proves,
  except two trusted wrappers whose contracts Verus takes as given:
  `text::push_char` (over `String::push`) and `runner::decode_lossy` (over
  `String::from_utf8_lossy`, whose result is named `utf8_lossy`).
  - `token.rs`, `chars.rs`, `lexer.rs`: the tokens, the character classes and
    the lexer, specified by a model of one lexing step (`spec_next_token`)
    and of a whole source (`spec_tokenize`).
  - `parser.rs`: the parser over the tokens: its cursor and leaf readers
    (identifiers, parameter lists, skipping), the operators' binding
    powers, and the expression, primary, block, loop and program readers,
    with `parse` for a whole source.
  - `ast.rs`: the syntax tree the parser builds, and its value as a model.
  - `grammar.rs`: the grammar as a model over the tokens: for each reader,
    where it stops and the tree it builds, or that it refuses the tokens.
  - `parse.rs`: the readers themselves, each proved to build what its model
    in `grammar.rs` says.
  - `code_index.rs`: the cursor the interpreter keeps over compiled steps.
  - `log.rs`: log levels, a filtering logger and a logger that keeps the
    latest messages.
  - `calendar.rs`: day numbers and civil dates, with both round trips
    proved.
  - `radix.rs`: integers written in bases 2 to 36.
  - `regex_flags.rs`: checking regular-expression flags.
  - `runner.rs`: the Test262 runner's decisions: skipping, modes, sources,
    judging runs, the child's report and the parent's reading of it, the
    command line and the tally.
  - `text.rs`: string helpers shared by the modules.
- `tests/` runs the library on concrete values.
- `app/` is ordinary Rust around the library: a logger that prints, the
  floating-point value of numeric literals, and the runner's file, process
  and YAML work.

Verify with `verus` on `src/lib.rs`.
