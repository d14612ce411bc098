# terramenta

The verified core of the Terramenta globe, written in Verus: the rules the
globe decides on plain values, stated in `requires` / `ensures` contracts and
proved.

## Layout

- `src/` — the library, verified by Verus.
  - `tiles`, `tile_cache` — the tile quadtree, its asset paths, and the cache
    that streams it frame by frame within its request budgets.
  - `fetch`, `imagery`, `wms` — asset paths and URLs, percent-encoding, the
    imagery presets and the WMS `GetMap` request.
  - `features`, `geojson`, `mvt` — the flattened geometry store, the GeoJSON
    walk that fills it, and the first steps of reading a vector tile.
  - `ephemeris`, `omm`, `idset` — ephemeris layers, their catalogues,
    selections, trails and picks.
  - `mission` — the spacecraft missions asked for, and the states each moves
    through from search to launch.
  - `commands`, `frame`, `heliocentric`, `gnc`, `hud`, `calendar`, `text` —
    the command queue and its routing, the small settings the interface flips,
    the live readout's text, civil dates, and the decimal text every path is
    written in.
- `tests/` — tests of the library, run against the compiled crate.
- `app/` — what surrounds the library: reading documents with `serde`,
  propagating with `sgp4`, the floating-point geometry and astronomy, the
  loop that hands parsed ephemeris documents to their layers (with the trail
  windows and refresh periods, which are floating point), and the snapshot an
  interface reads; what it decides rests on floating point or on
  `geozero`'s processor traits. Nothing in it is verified.
