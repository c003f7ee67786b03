# ripdiff

A terminal UI for reviewing the uncommitted changes of a git repository: a
file list beside a structural diff of the selected file, with staging,
committing and pushing from the keyboard.

The library under `src/` is verified with Verus:

- `git` — what git's output means: `status --porcelain=v2 -z` records,
  `diff --numstat -z` counts, branch labels, and the git invocations the
  viewer runs.
- `diff` — the comparisons a file gets and how a structural diff becomes
  styled lines, inline or side by side.
- `app` — the viewer's state and what each key does to it, as a state
  machine that hands outside work back to its caller as commands.
- `ui` — the title bar, the file list rows and the diff panel as styled
  lines.
- `syntax` — ANSI-highlighted new files and unified diffs.
- `store`, `style`, `text`, `width` — the collections, styled text, string
  helpers and display widths these build on.

`app/` is the program around it: arguments, running git, reading files,
the event loop and drawing with ratatui.
