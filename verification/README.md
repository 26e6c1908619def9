# muffle

Muffle cuts PipeWire links between applications according to filter
expressions, so that, for instance, a screen-sharing client records only the
applications it is allowed to hear.

The library under `src/` is verified with Verus:

- `filter/` — the filter language: lexer, grammar and parser (with the proof
  that a fully parenthesised rendering of any expression reads back as that
  expression), and evaluation of expressions against the names of a link's
  two ends.
- `link.rs`, `object.rs`, `decimal.rs` — reading registry objects as links,
  node labels, and the decimal properties with which a cut link is restored.
- `app.rs` — the daemon's decisions as a state machine: each registry event,
  configuration reload or shutdown request yields the actions to perform.
- `parsing.rs`, `pattern.rs`, `text.rs` — error reports (through `ariadne`),
  compiled regular expressions (through `regex`), and text helpers.

`app/` is the program around it: the PipeWire main loop that performs the
actions, configuration loading and watching, logging and the interrupt
handler.
