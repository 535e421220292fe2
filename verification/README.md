# differential_review

The pure core of a terminal tool for reading a change group by group, and of
the symbol readers behind it, written in Verus: every public function under
`src/` carries a contract and is proved against it, and private helpers are
proved against theirs where they have one.

## Layout

- `src/` — the verified library.
  - Symbol readers: `namespace` (which language a file belongs to), `naive`
    (the crude regex reader), `sfc` (masking a single-file component down to
    its script), `stub`, `captures`, `kinds`, `symbols`, `patterns`.
  - The review screen's arithmetic: `panes` (dividers, boxes, frames and
    their hit tests), `scroll` (cursor and views, in screen lines), `map`
    (the group map), `plan` (the plan's connector), `tree` (the file tree),
    `lists`, `text`, `lines`, `peek`, `search`, `hints`, `help`, `keymap`,
    `command`, `config`.
  - Which key does what: `keymap` (the actions' default keys, the reader's
    keys laid over them with every reserved key and clash reported, and the
    lookup of a run of presses) and `acts` (each place's rows of keys, as
    the footer and `?` read them).
  - What a key, a pointer event or a forge poll does: `keys` (one step from
    the review's state and an event to the next state and the actions the
    app carries out) and `forge` (the call in flight and the footer's words).
  - Terminal escape sequences: `osc` (clipboard, notifications, progress).
  - Text helpers: `strings`, `order`, `width`, `bytes`, `prompts`.
- `tests/` — ordinary Rust tests run against the compiled library.
- `app/` — the I/O around the library: writing sequences to the terminal and
  running the reader's editor.

Outside crates are reached only through small trusted wrappers whose
contracts name what the crate computes: `regex`, `base64`, `unicode-width`
and `textwrap`.
