# orbit_engine

The bookkeeping core of a small browser-based solar-system viewer: entity
storage and hierarchy, component columns, events, input decisions, and the
resource tables behind meshes, materials, shaders and cubemaps. The code
under `src/` is checked by Verus; its functions state their behaviour in
contracts, except the repaint flag in `src/gui_backend.rs`, an atomic
boolean whose value Verus cannot follow.

Layout:

- `src/managers/entity.rs` — entities in storage slots, with parents stored
  before their children; deleting, reparenting, reordering and merging.
- `src/managers/component.rs` — one column per component kind, kept in step
  with entity slots.
- `src/managers/event.rs`, `src/managers/input.rs` — the event queue and the
  per-frame input decisions.
- `src/managers/resource/` — materials and their shader defines, include
  resolution for shader sources (with the `regex` crate), index buffers of
  the procedural meshes, cubemap assembly and the tables of built-in
  resources.
- `src/components/`, `src/gui_backend.rs`, `src/entity.rs` — small
  components, key and cursor tables, and a simple named-entity registry.
- `app/` — the floating-point and toolkit side: vertex positions and
  normals, and conversions to and from `egui`/`epi` types.
- `tests/` — executable tests of the library.
