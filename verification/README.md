# gitpeek

A terminal browser for `git stash` entries: list the stashes, read a stash's
patch or one file's change, and pop a whole stash or a single file of it.

The library under `src/` is verified with Verus:

- `text.rs` — the `str` operations the browser relies on (`lines`,
  `split_once`, `strip_prefix`, `trim`, `u32` parsing and printing), stated
  over `Seq<char>`.
- `git.rs` — the `git` command lines the browser runs and the reading of
  their output (`git stash list`, `--numstat`, pop reports).
- `app.rs` — the browser state and its transitions. A transition that needs
  `git` leaves the call in `App::pending`; `App::complete` takes in its outcome.
- `event.rs` — keys and mouse events as state changes.
- `ui.rs` — pane geometry (through ratatui's `Layout`), the grouped file tree,
  labels and prompts.
- `laws.rs` — properties of the whole: pops only after a confirmed prompt,
  selections and scrolling clamp, every file appears once in the tree, stash
  lines read back exactly, and more.

`app/main.rs` is the program around it: arguments, running `git`, the
terminal and the event loop.
