# insert_history

Inserts finalized history rows into terminal scrollback. A chat interface that keeps its history in
the terminal's own scrollback draws only a small viewport; a finished cell is put above it with
escape sequences.

The library works out what is to be sent, as plain values, and proves it right with Verus:

- `style`, `text`, `geometry`: styles, lines and the screen.
- `rows`: how many rows a line takes once the terminal has wrapped it.
- `indent`: the indentation that the continuation rows of a wrapped line repeat.
- `spans`: styled spans and history lines as terminal commands.
- `insert`: whole insertions, with a scroll region or through the terminal.
- `command`, `ansi`: the commands and their escape sequences, written by `crossterm`.
- `screen`: a model of the terminal and the proof that history ends up right above the viewport,
  that nothing is lost and that the cursor stays where it was.
- `pen`: a model of the terminal's rendition and the proof that each span is drawn in its style.
- `primitives`: which terminal primitives the two ways of insertion use.

`app` carries insertions out on a `ratatui` terminal. The tests run them on an emulated one.
