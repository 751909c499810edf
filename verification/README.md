# bd-watcher

A terminal dashboard for the bd (beads) issue tracker. It polls
`bd graph --json` on an interval and shows per-epic progress, a layered view
of one epic's sub-beads, and a live feed of status changes. It only reads:
every `bd` call is `bd graph ... --json --readonly`.

## Layout

- `src/` — the library, verified with Verus. Each public function states
  what it returns in its `ensures`, over spec functions and views.
  - `text` — character-level helpers: search, padding, truncation, joining,
    decimal numbers.
  - `model` — issues, dependencies, components, snapshots, status tallies and
    activity events.
  - `diff` — the activity events between two snapshots.
  - `ui::layers` — the layering of an epic's sub-beads by dependency depth,
    and their screen order.
  - `ui::widgets`, `ui::panels` — what each panel shows: tallies, progress
    bars, PR cells, dependency labels, titles and rows.
  - `theme` — the colour palettes and how one is picked.
  - `gh` — GitHub owner/repo names from git remotes, PR numbers and URLs.
  - `bd` — the arguments `bd graph` runs with.
  - `clipboard` — trying the clipboard helpers in turn.
  - `preflight` — the start-up checks.
  - `app` — the dashboard state: snapshots, errors, the activity log,
    selection, the filter and keys.
- `app/` — the program around it: command line, terminal, `bd`/`git`/
  clipboard processes, JSON decoding and drawing with ratatui.
- `tests/` — tests of the library.

Lookups by id (the issues of a snapshot, the ids already tallied, the
issues of a component) are scans over vectors rather than `HashMap`s or
`HashSet`s: vstd specifies the std hash collections, but keyed by `String`
nothing about them could be proved, so the vectors carry the contracts.

The laws the library keeps (the activity log holds the latest status
changes, each changed id gets exactly one event, layers sit above what they
depend on, navigation stays within what is shown, ...) are public proof
functions next to the code they are about.
