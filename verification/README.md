# herdr_sidebar

A sidebar for a terminal that hosts panes: source control, text search, quick
open, and a viewer for files and changes.

- `src/` is the library. What the views hold, what keys and the mouse do, how
  output of git and ripgrep is read, how changes, files and selections are laid
  out, and which outside steps follow are functions from plain values to plain
  values. Each states in its contract what it returns, over spec functions that
  stand beside it; Verus proves it. Public proof functions whose names begin
  with `law_` state what holds of several functions together.
- `app/` is the program: the terminal, processes, files and the host. It asks
  the library what to do next, does it, and hands back how it ended.
- `tests/` runs the library on examples.

The outside calls that the library makes (regular expressions, grammars and
themes, the width of text, JSON) stand in small functions marked
`external_body`. The comment above each says what is believed of the call.

The program reads these variables of the environment, where they are set:

- `HERDR_SIDEBAR_SKIP`: names of directories, with commas between them, that are
  left out when repositories are looked for.
- `HERDR_SIDEBAR_SUGGEST`: a program that reads a change and writes a message
  for it.
