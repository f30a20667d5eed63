# helix

The editing logic of a modal text editor, as a library whose functions carry
contracts that Verus proves: the line model of a text, grapheme boundaries,
selections and cursor movements, text objects, view scrolling and screen
coordinates, jump lists, keymaps, registers, the command prompt and typed
commands, configuration defaults and the merging of TOML configuration files.

- `src/` is the verified library. Each module states its model in spec
  functions; public proof functions (`lemma_*`) state the laws that hold
  across calls.
- `src/unicode.rs` and `src/strings.rs` hold the trusted wrappers around the
  Unicode crates and the standard library, each with the contract it is
  believed to meet.
- `tests/` runs the library on concrete inputs.
- `app/` is the `hx` program: arguments, configuration and log files, loading
  the language configuration, and the languages health report.
