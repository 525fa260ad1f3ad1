# bms_store_gui

The decision logic of a building-management desktop GUI, written in Verus
and verified: every function in `src/` carries a contract over
mathematical models (sequences, maps, integers), and the laws that tie
functions together are stated and proved as proof functions.

## Layout

- `src/text.rs`, `src/numparse.rs`: decimal rendering with Rust's padding
  rules, integer parsing with the rules of `str::parse`, trimming, CSV
  fields, the text order of `str::cmp`.
- `src/calendar.rs`, `src/civil.rs`: the proleptic Gregorian calendar;
  day numbers to dates from 1970 on by counting years, and for any day by
  400-year eras, with both conversions proved to agree.
- `src/json.rs`: JSON values as plain data.
- `src/aggregation/`: merging per-site answers of the cross-site alarm and
  energy views.
- `src/api_client.rs`: the REST client's requests and how responses are
  read.
- `src/components/`: what the views decide and display apart from
  rendering: alarm history filters, exports and the add-alarm forms,
  commissioning checklists, bridge configuration forms, secret redaction
  in cloud configuration, tag coverage, the tag editor and batch tagging,
  equipment refs, the equipment browser and device tree, the device
  detail pane, the navigation tree, API keys, alarm routing, and the
  backup and atlas panels as state machines.
- `src/shell.rs`: the project gate's screens, the main window's layout,
  point writes and staleness, and the device summary.
- `src/bacnet.rs`, `src/clock.rs`: the calls into `rustbac-core` and the
  system clock, behind contracts.
- `app/`: HTTP transport, JSON text, local time, floating-point values,
  files and the asynchronous store calls that the library's decisions
  drive.
- `tests/`: executable tests of the library.
