# External libraries

The store behind the "External Libraries" section of an editor's project
panel: it discovers the packages that a project depends on, surfaces them for
browsing, and decides when they leave the panel again. Its behaviour is stated
in contracts and proved with Verus.

- `src/path.rs`, `src/path_map.rs`: paths as sequences of components, their
  order, and maps and sets kept in that order.
- `src/library_root.rs`: locating the package that a file belongs to.
- `src/settings.rs`: the settings that the store obeys.
- `src/context.rs`: what the store reads of the application, and what it asks
  of it.
- `src/enumeration.rs`: listing dependencies, one root and provider at a time.
- `src/library_entry.rs`: finding a file's entry in the surfaced libraries.
- `src/model.rs`: the store's state and transitions as mathematics.
- `src/store.rs`: the store.
- `src/laws.rs`, `src/history.rs`: what holds over several calls, and in every
  state that the store reaches.
- `app/`: runs the store inside an editor: the file system, timers, worktrees
  and dependency providers.
