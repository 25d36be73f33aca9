# shpool-table

A lightweight TUI for managing shpool sessions, with its logic verified by
Verus.

`src/` is the library: everything the program decides or draws, free of I/O.

- `tui/` — the interface: input parser (`parser`), key bindings (`keymap`),
  session-name templates (`template`), the model (`model`), the update
  function from events to commands (`update`), what the terminal shows
  (`view`), and what the whole promises (`laws`).
- `executor` — the `shpool` call that each command takes, and what its outcome
  leads to.
- `driver` — the main loop, one step at a time.
- `shell` — the arguments of each `shpool` call, and what its output means.
- `events`, `tty` — the event subscription and the terminal's state.
- `menu` — a plainer menu over the same sessions.
- `table`, `chrome`, `age` — the session table, bars and labels, ages.
- `session`, `order`, `text` — sessions, stable sorting, text.

`app/` is the program around it: command line, processes, terminal and wire
format. `tests/` runs the library on given values.
