# diskwatch

A single-host disk diagnostics TUI: per-device IO and latency, capacity and
growth, md arrays, SMART, and the files that are busiest right now — in a
full eight-tab view, an 80×24 Lite view and a dense six-box view.

## Layout

- `src/` — the library, verified with Verus. Everything the program decides
  from plain values lives here, each public function with a contract:
  - `text` — the string and number scanning the parsers share;
  - `config`, `settings` — the config file, the validators, and how flags,
    environment and file settle into one set of settings;
  - `collect` — parsers for `/proc/diskstats`, `/proc/mdstat`,
    `diskutil apfs list` and sysfs block attributes, attribution of
    filesystem usage to whole disks, the device ordering, the growth
    tracker, the SMART reading of `smartctl` output and its refresh
    schedule, and the hot-file roots and which files stay tracked;
  - `app`, `tabs` — the key handling of all three views as a state machine,
    and the tick clock that says when each reading is due;
  - `ui` — layouts, labels, clipping, themes, the grouping of a history
    into chart columns by absolute sample index, and what the device,
    SMART and file panels show.
  Laws the library keeps are public proof functions named `law_*`.
- `app/` — the program around the library: the command line, reading files
  and processes, the `notify` watcher, the terminal, floating-point rates,
  and drawing.
- `tests/` — tests of the library on concrete values.
