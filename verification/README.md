# trello_tui

A terminal client for Trello with vim-style keys, and a command line for scripts
(`trello-tui boards`, `cards -b <board>`, `add`, `edit`, `move`, `comment`, `archive`).

The decisions of the client live in a library verified with Verus (`src/`):

- `keys`: the normal-mode key parser (counts such as `5j`, sequences such as `gg`, `dd`, `cw`).
- `app`, `actions`, `commands`, `desc`: the client's state and what every key, prompt line,
  editor key and API answer does to it. Work that leaves the process is queued as an
  `Effect`; answers come back as a `Msg`.
- `cli`, `subcommands`: finding boards, lists and cards from what the user typed, the fields
  each subcommand sends and the lines it prints.
- `view`: which lists fit on the screen, label colors and the status line.
- `model`, `sort`, `text`, `config`: the data model, a stable sort, string helpers and
  settings.

Card and list positions are Trello's floating-point numbers; the library holds each as an
order key (`u64`) that compares as the positions do, and asks the program for a position
between two others.

`app/` is the program around the library: the HTTP client, the terminal, the text widgets,
the drawing and the command line parser. `tests/` runs the library on concrete cases.
