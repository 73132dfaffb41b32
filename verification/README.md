# rway

The core of a Sway-compatible tiling window manager, written in Verus: each
function carries a contract and Verus proves that the code meets it.

## Layout

- `src/config/` — the configuration language: lexing of words, numbers and
  quoted strings, and the line-by-line parser (`set` variables, `bindsym`,
  `output`, `input`, `gaps`, borders, `for_window` rules, workspaces). The
  parse of a text is stated as a spec function over its lines.
- `src/ipc/` — the i3 IPC wire format (magic, little-endian length and type),
  message and event type numbers, and subscription requests.
- `src/tiling/` — the arena tree of outputs, workspaces, containers and
  windows: insertion and removal of windows, focus movement, resizing,
  marks, floating and fullscreen flags, workspace switching and layout of
  geometries. Every operation but raw mutable access to a node keeps the
  tree well formed.
- `src/harness/` — the compatibility harness: registered checks, reports by
  category, baselines and regressions, and the consistency sweep that
  matches a feature table against check results. `src/harness/checks/`
  holds the built-in checks of the eight categories and their
  registration, each category's list of checks stated as a spec function.
- `tests/` — tests of the library on concrete values.
- `app/` — the command-line program: files, processes, sockets, JSON
  encoding and printing, around the library; the running of the checks
  (each check function is called there); and the few built-in checks that
  the library takes from it: those that read reply records back from
  their JSON form, the floating-point size normalisation, and the checks
  that move windows across workspaces, whose precondition the library does
  not decide beforehand.

Laws that relate several operations (reading back an encoded header,
removing the window just inserted, toggling twice, laying out twice,
renaming and renaming back, and others) are public proof functions next
to the operations they speak of.
