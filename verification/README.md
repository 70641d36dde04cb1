# admin_plugins

The decision logic of two Counter-Strike 2 server plugins, verified with Verus:

- the map-chooser admin menu: which screen each action leads to, the menu
  documents, the admin's map selection for a vote, the pending round-end map
  change, the admin votes and their tally, and the checks on its settings;
- the administrator ESP: who may see player outlines and when, which glow
  entities are published for which player, which glows each viewer is not
  sent, the protocol that creates a glow pair, the ESP configuration and the
  players' saved preferences.

Layout:

- `src/` — the verified library. `state.rs`, `menu.rs` and `admin_config.rs`
  hold the map-chooser side; `esp.rs`, `esp_config.rs`, `events.rs` and
  `preferences.rs` the ESP side; `flags.rs` and `text.rs` the admin flag
  strings and text helpers both use. The `law_*` proof functions state the
  properties that hold across calls.
- `tests/` — tests of the library on concrete values.
- `app/` — the engine-facing glue: FFI bindings, configuration and preference
  files, the plugin lifecycle and engine callbacks. It asks the engine and
  hands the answers to the library.
