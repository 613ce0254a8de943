# hexigraph

Routing graphs whose nodes are H3 cells and whose edges are H3 directed
edges, with the rules of a routing service built on them, verified with Verus.

## Layout

- `src/h3.rs`: cell and directed-edge indexes; everything that depends on the
  H3 grid is computed by `h3o` behind trusted wrappers, whose results are named
  by uninterpreted spec functions.
- `src/collections.rs`, `src/treemap.rs`: hash maps (`hashbrown`) and
  compressed bitmaps (`roaring`) of index values, opaque to the verifier and
  described by their contents.
- `src/graph/`: edge graphs (`h3edge`), graphs prepared for routing with
  fast-forwards along paths without forks (`prepared`, `fastforward`), graphs
  with excluded cells (`modifiers`) and building graphs from ways (`builder`).
- `src/algorithm/`: edges between cells, changing cell resolutions, paths and
  their order, the nearest graph nodes of a cell and the cells reachable within
  a weight threshold.
- `src/routing/`: the service's rules: graph keys and their storage locations,
  routing mode names,
  dataset paths, file formats, OpenStreetMap tag interpretation (speed limits,
  sidewalks, ratings of ways), the selection of origin cells around a
  disturbance, the choice of the graph to route on first, the rows of the
  table of shortest paths, figures of the routes found, the order in which column names
  are prefixed, and how results are split for streaming.
- `tests/`: tests of the library on concrete values.
- `app/`: a command line tool that reads OpenStreetMap PBF files and builds
  graphs with the library.

Weights are `u64` values throughout; travel durations and other floating point
figures are computed outside the library.
