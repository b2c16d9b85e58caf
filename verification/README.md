# nanoargs

A small command-line argument parser: flags, options, positionals,
subcommands, environment fallbacks, value validators, help text and shell
completion scripts (bash, zsh, fish, PowerShell), with no outside
dependencies. The library is written in Verus: its functions carry contracts
that the verifier proves, resting on four small trusted wrappers of std
functions (`String::push`, `str::to_uppercase`, `str::to_lowercase` and
`Path::exists`), whose contracts are believed as documented.

## Layout

- `src/semantics.rs` states what parsing means, token by token, as spec
  functions over sequences of strings; `src/parser.rs` implements it and
  proves `parse` / `parse_with_env` against that meaning.
- `src/builders.rs` builds and checks a schema; `src/help.rs` and
  `src/completions.rs` render help text and completion scripts, each proved
  equal to a spec of the exact text.
- `src/result.rs` holds parse results, their accessors and a builder;
  `src/free.rs` the schema-free parser; `src/validators.rs` the value checks.
- `src/properties.rs` holds laws that span several operations (for instance,
  that a help or version request ends the reading, that `-abc` means
  `-a -b -c`, the CLI → environment → default resolution order, what the
  help text lists and how it lines up, which schemas `build` accepts, and
  that completions cover every visible flag and option); `src/reading.rs`
  holds laws of reading argument lists (the spellings of an option agree,
  positionals keep their order).
- `app/` reads the real process arguments and environment, offers typed reads
  through `FromStr`, and the `extract!` macro.
