# haystack_ui

The verified core of a log viewer's user interface. `src/` holds the
logic, each function with a contract that Verus proves:

- `highlight`: layering of search, keyword and filter hits into the
  disjoint spans of one rendered line; truncate-mode display; source spans
  of embedded payloads.
- `logview`: find-box decisions, keyword picking, filtered-row and
  viewport bookkeeping, reselection after a manual scroll, pins.
- `template`: the Templates view — occurrence rows, anomaly flags, sort
  orders, the cached query filter, navigation and CSV export.
- `decode`: the inspector's decode action (base64, hex, JWT, binary
  property lists) and bounded previews.
- `lines`, `occurrence`: copied text, occurrence context and human
  durations.
- `completion`, `record_editor`, `format_syntax`, `format_preview`: the
  log-format editor — placeholder completion, edit and preview
  bookkeeping, saving formats, the pieces a template is drawn in, and what
  the preview says of a sample.
- `overlays`, `hover`, `zip_import`, `screenshot`: Escape handling, the
  go-to box and command palette, hover callouts, the archive queue and the
  tracked-screenshot hook.
- `dock`, `popup`, `presentation`, `settings`, `filters`, `instance`:
  decision tables behind the dock, popups, inspector, settings pages,
  filter suggestions and single-instance startup.
- `text`: character-level helpers shared by the above.

`app/` holds what talks to the outside world: the single-instance lock
file and loopback socket, JSON configuration snippets, and the platform
choices that the library takes as parameters.
