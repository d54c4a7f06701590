# toto

A fuzzy finder for shell tricks kept in Markdown files, with its logic
verified by Verus.

## Layout

- `src/` — the verified library:
  - `text.rs`: character-sequence operations (`trim`, `split`, `lines`,
    `replace`, ...) with their `str` semantics as spec functions;
  - `item.rs`: trick items and the variable store with tag dependencies;
  - `parser.rs`: the trick-file grammar and the line parser;
    `parser_laws.rs`: what holds of every parse, and when the options
    of a variable line are refused;
  - `matcher.rs`: fuzzy ranking (scores from `nucleo-matcher`, matched in
    parallel with `rayon` for large lists);
  - `display.rs`, `frame.rs`: column widths, truncation, highlighting,
    wrapping and the picker's frame;
  - `picker.rs`: window heights, key decoding and the picker's state
    machine;
  - `runner.rs`: placeholders, suggestions and interpolation;
  - `usage.rs`: usage counts and their file format;
  - `config.rs`, `files.rs`: settings, defaults and trick locations;
  - `laws.rs`: properties that span several operations (the variable
    store, the picker, ranking, interpolation sessions).
- `tests/` — tests of the library.
- `app/` — the terminal, process, file and environment side: the picker
  loop on `/dev/tty`, running commands, reading the configuration, the trick
  files and the usage file.
