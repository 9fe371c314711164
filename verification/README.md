# ski_grid

The hexagonal terrain grid of a ski-resort builder, as a library whose
behaviour is stated in contracts and proved.

- `src/hex.rs` – axial cell coordinates and their six neighbors (through `hexx`).
- `src/object.rs` – surfaces, structures, lifts and placeable object kinds.
- `src/grid.rs` – the grid: heights, surfaces and objects keyed by cell and by
  instance id; building a grid from generated terrain, placing objects,
  listing what stands on a cell.
- `src/grid_entity.rs` – the editing tools: what a click or a hover does to
  the grid and the cursor, and which events it asks for; what to show first.
- `src/hex_mesh.rs` – the whole-number side of cell meshes: triangle fans,
  averaged corner heights, soft-hexagon indices and the shared-corner layout
  of the smooth mountain mesh.

`app/` holds the Bevy side: Perlin-noise world generation, entities and
pointer observers, and the floating-point mesh vertices. It expects the game's
`util::hex`, `game::surface`, `game::object`, `game::material`,
`game::events` and `game::placement::gizmo_entity` modules beside it.
