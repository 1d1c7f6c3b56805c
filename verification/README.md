# tui

The terminal interface of a coding agent: layout of text, block history,
streaming output, tool calls, differences, tables, dialogs, the prompt, and the
sessions behind them.

* `src/` is the library.  Whatever is drawn is recorded as a list of terminal
  commands (`render::out`), and contracts say which commands those are.  Laws
  that relate several functions are public proof functions named `law_...`.
* `tests/` runs the library on concrete values.
* `app/` is the ordinary Rust around it: output to a terminal, files, and
  numbers that are computed in floating point.
