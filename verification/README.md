# mgc_sim

A verified simulation core for a two-column wizard game: the shared
entity pool and terrain planes, the first column's rival wizards, and
the second column's spellbook, castles, rising buildings and creature
primitives. Every executable function carries a `requires`/`ensures`
contract checked by Verus.

Layout:

- `src/pool.rs` — the entity pool (`Gen`), its records, free list, LCG
  draws and planar geometry.
- `src/terrain.rs` — terrain helpers shared by the builders.
- `src/world.rs` — the `World`: the pool plus the human wizard, the
  rival rosters and the tick-top chains.
- `src/mc1/rivals.rs` — rival wizards: roster setup, hate and war,
  target picks, castle-site scouting, tokens and learning.
- `src/mc2.rs` and `src/mc2/` — the colour/art permutation and sprite
  extents; the spellbook and cast machinery (`cast.rs`); castles,
  balloons and their painters (`castle.rs`); creature primitives and
  simple spawners (`mobs.rs`); rising buildings (`building.rs`).
- `tests/` — executable tests against the compiled library.
