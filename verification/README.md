# agents-mon

The logic of a tmux sidebar that shows which coding agents run in which panes and
what they are up to, written in Rust and verified with Verus.

- `src/` is the verified library. Each function states in its contract what it
  returns; the laws that relate functions are public proof functions next to the
  specifications they speak of, or in
  `conf_laws`, `frame_laws` and `columns`.
- `app/` is the program around it: the control-mode pipe, the process table, the
  terminal, files and child processes.
- `tests/` runs the library on concrete values.

| module | holds |
| --- | --- |
| `text`, `unicode`, `pattern` | characters, lines, numbers; lower case and decoding; regular expressions |
| `conf`, `conf_files` | the conf files: their order, their grammar, and the rules they set |
| `detect` | an agent's state and subject, from a pane's title and screen |
| `procs` | which agent runs in a pane |
| `scan` | panes and rows, and rows as text |
| `tmux`, `clients` | control-mode replies and notifications; lists of clients |
| `keys`, `filter`, `sidebar`, `overlay`, `versions` | keys, filters, the sidebar's state, help and version picker |
| `paint`, `frame` | signs, bars, and the frame that is drawn |
| `mirrors`, `mirror` | preserved panes, and mirrored frames |
| `clock`, `rounds` | when things are due, and what comes next |

The rows that the program shows come straight from a scan: it keeps no track of
what the user has looked at, so that no agent becomes `done` by itself, and it
sends no notifications. Which pane has the focus it reads off tmux's list of
clients, as the one that the most recently active client looks at.
