# maze_defence

The deterministic core of the Maze Defence tower-defence game, written in
Verus. The library's functions state what they return or change in
`requires`/`ensures` contracts that Verus proves; constructors of the
field-less system types need none. Calls into the `base64`, `sha2`,
`rand` and `rand_chacha` crates, and one std string conversion, stand behind a few trusted wrappers
whose contracts are documented where they are declared.

## Layout

- `src/core_types/` — identifiers, cell geometry, durations, read-only views
  handed to systems, commands and events.
- `src/world/` — the authoritative world: tile grid geometry, walls and exits,
  the navigation field (breadth-first distances to the exits), the tower
  registry, bugs, projectiles, and `apply`, the command handler whose
  contract describes every permissible mutation and which keeps the world's
  invariants.
- `src/systems/` — pure systems that read world views and propose commands:
  movement, tower targeting and combat, spawning, the builder, analytics
  metrics, bootstrap, round resolution, tower feedback, the scheduling of a
  wave's planned spawns onto the spawners (band draws from `rand_chacha`),
  and the deterministic samplers and seeds used to plan waves.
- `src/transfer/` — the single-line layout format
  `maze:v2:<columns>x<rows>:<base64 payload>`, its varint payload, the
  legacy `maze:v1` strings whose payload is the layout's JSON text, and
  restoring a layout into a world.
- `src/simulation.rs` — the frame driver: the world with its systems,
  fed each frame's events pass by pass (spawning, movement, builder,
  targeting and firing, round resolution, tower feedback), with layout
  restoration.
- `src/presentation.rs`, `src/settings.rs` — descriptors for adapters and
  launch settings read from the command line.
- `app/` — the command-line adapter: argument parsing, reading frames of
  player input from standard input, timing, and printing layouts.
- `tests/` — scenario tests of the library.
