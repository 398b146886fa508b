# rustigc

IGC flight recorder files, parsed and written back, and the integer side of cross-country
scoring, verified with Verus.

- `src/` is the verified library:
  - `decode/`: one reader per record letter, each stated against a specification of the bytes it
    accepts, and the writers that print records back, as IGC and as a person reads them;
    `rawlog.rs` reads a whole file as records, `log.rs` decodes them into a log (recorder,
    headers, track, task), `roundtrip.rs` proves that what is written reads back as it was, and
    that a file whose every record prints back as its own line is rewritten byte for byte.
  - `score/`: the leagues and their rules (pricing a distance and a closing gap in whole
    millimetres, their limits exactly in micrometres, proved monotone), the geometries they
    name, the search's candidates and queue, the furthest-point scan records, the cache of
    turnpoint boxes, and which cell of the distance-error table a flight reads.
  - `utils/`: integer geometry (points, the antimeridian, bounding boxes) and pairing.
  - `analysis/`: where flights are looked for, how long fast readings must hold and where they
    settle, and which flight is the longest.
  - `window.rs`, `fixtures.rs`: a command line's fix window, fixture names.
- `app/` is the `rustigc` command line and the floating-point half of scoring: the FCC and WGS84
  distances, the branch-and-bound measurements, flight detection by ground speed, GeoJSON export
  and time zones.
- `tests/` runs the library on concrete files and values.

Coordinates are thousandths of an arc minute and timestamps milliseconds, as an IGC file writes
them.
