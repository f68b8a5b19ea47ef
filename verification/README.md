# oxidust

The core of Oxidust, a system cleaner with a disk map, layered cleaning
presets, a finder for deleted files still held open by processes, and a
fleet view of remote machines. The library is written in Verus: its
functions carry contracts, and Verus proves the code against them. The
only code taken on trust is three small calls into the clock and into
std's upper-casing, each documented where it stands.

## Layout

- `src/text.rs`: decimal rendering and parsing of integers, trimming,
  splitting and substring search over `Seq<char>`.
- `src/binary64.rs`: exact integer evaluation of the `f64` percentage and
  scaling expressions the application uses, with IEEE 754
  round-to-nearest-even stated as a spec.
- `src/color.rs`: `#rrggbb` colors.
- `src/model.rs`: the records (blocks, presets, held-open files, fleet
  machines, console lines, chat messages) and their views.
- `src/catalog.rs`: the per-platform tables and byte formatting.
- `src/treemap.rs`: the display order and the recursive split plan of the
  disk map.
- `src/window.rs`: the saved window geometry and its file and registry
  forms.
- `src/state.rs`: the application state and every user action on it.
- `src/laws.rs`: properties across actions (space conservation of purges,
  toggling twice, nested safety thresholds, dry runs, percentages).
- `app/main.rs`: a terminal front end: command loop, window-state storage,
  and the pixel geometry of the disk map.
- `tests/`: scenario tests, including comparisons of the integer `f64`
  evaluation with real floating point.
