# flanks

The battle rules of FLANKS, a real-time medieval battle game, as a Verus
library: every function in `src/` carries a contract that Verus proves.

- `src/` — the verified library. Regiments and their orders, selection and
  control groups, formations, morale and fatigue state machines, the swing
  cycle of a soldier, contact and victory bookkeeping, archery upkeep, the
  army picker, the render and corpse buffers, the settings switches and the
  state fingerprint. Positions and angles are floating-point in the game:
  the library carries a regiment's ground points as an opaque payload and
  takes the outcome of every distance or angle test as a plain `bool`.
  Laws that span several functions are public `law_*` proof functions.
- `tests/` — tests on concrete values.
- `app/` — the executable shell: settings persistence (YAML), environment
  knobs, and the floating-point measures that feed the library.

The shell does not open a window or run a battle: the game engine that
runs the battle (bevy), with its dependency tree of several hundred
crates, is left out, and `Cargo.toml` names only the crates of the
settings file. The float adapters in `app/geometry.rs` are the inputs
the engine's systems compute each tick; here they have no caller.
