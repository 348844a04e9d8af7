# ghostmux

Terminal session tooling for Ghostty and zmx, with its logic verified by Verus.

Two programs share the library:

- `gmx`, a multiplexer front end: named zmx sessions grouped with their panes,
  remotes reached over ssh or mosh, and Ghostty keybindings;
- `ghostreelite`, a worktree manager: repos discovered locally and on a remote,
  their worktrees listed and opened in Ghostty tabs and splits, each with its
  zmx session.

## Layout

- `src/` is the verified library. Each function states its behaviour in
  `requires`/`ensures` over spec functions on `Seq<char>`, `Seq`, `Map` and the
  views of the library's types.
  - `text`, `lines`, `sort`, `strmap`, `paint`: string models, line splitting
    and joining, stable sorts, a string-keyed map with unique keys, coloured
    output.
  - `ghostty_lib`: shell and AppleScript quoting, the scripts sent to Ghostty,
    the terminal state file, worktree listings, zmx session listings.
  - `gmx`: its configuration, session registry, session grouping, keybinding
    block and the decisions of each command.
  - `ghostreelite`, `config`, `display`: repo discovery, the picker, the
    decisions of each command, and the table rows.
- `app/` holds the two command-line programs: argument parsing, files,
  processes, the interactive picker and JSON storage. It hands plain values to
  the library and acts on what comes back.
- `tests/` runs the library on concrete inputs.

Laws that relate several operations (reading back an escaped string, a removed
terminal being gone, reinstalling keybindings changing nothing, and others) are
public proof functions named `law_*`.
