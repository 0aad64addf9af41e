# bw_engine

StarCraft: Brood War map, game-data and replay logic with machine-checked
contracts, verified with Verus.

## Layout

- `src/` — the verified library.
  - Map terrain: `chk` (CHK sections), `chk_units` (unit placements, start
    locations), `tileset` (CV5/VF4 tables), `tile`, `map` (tile and mini-tile
    grids with walkability and height).
  - Game data: `dat` (units.dat, flingy.dat, weapons.dat), `gamedata` (unit,
    tech and upgrade names, costs and races).
  - Simulation pieces: `fp8` (24.8 fixed point), `direction` (256 headings and
    turning), `unit` (unit tags and per-frame movement), `vision` (fog of war),
    `regions` (flood-filled regions, neighbours and connectivity), `pathfind`
    (path planning over regions), `sim` (unit slot and tag allocation, hit
    damage and its application), `game` (player resources, upgrades, techs,
    engine commands, and the `Game` simulation: unit creation with turret
    slots, command application with hotkey groups, and the frame step with
    movement, morphs, combat, production, fog of war, mining, energy and unit
    separation).
    Statistics the `.dat` tables here do not hold (shields, sizes, sight,
    costs, armour upgrades, damage types) are handed to `Game::new` by the
    caller. A move order goes straight to its point (the region A* search in `app/` finds a path, which
    `Game::set_waypoints` hands in).
  - Replays: `header` (replay header and player names), `command`,
    `build_order`, `metadata` (matchup, map name, winner), `classify`
    (openings), `identity` (player name normalisation and grouping),
    `similarity` (edit distance and longest common subsequence of builds),
    `timeline` (cumulative per-player state).
  - `text`, `error`: shared text helpers and error types.
- `tests/` — tests run against the compiled library.
- `app/` — unverified code around the library: floating-point scores and the
  region A* search, serialisable copies of library types, error types with
  `Display`, and JavaScript bindings for map queries.
