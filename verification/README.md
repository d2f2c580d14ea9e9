# modtoggler

The core of a desktop mod manager for games whose mods are `.pak`/`.ucas`/`.utoc` files (or
loose files): mods are imported into a staging folder and enabled by moving their files into
the game's mod directory, every move batch recorded in a journal so an interrupted toggle can
be recovered. Option folders (`Option_*`) of a mod become sub-mods that can be switched on
their own. Profiles save and restore which mods are enabled.

- `src/` is the library, verified with Verus: reading a mod archive (through the `zip`
  crate) into the files to extract, import manifests and option folders, staging
  names, toggle and profile plans (the ordered steps a toggle or a profile load performs),
  the journal's recovery rule, the integrity scan, game and path helpers, and the error type.
  The laws of toggles and profiles are stated and proved there as proof functions.
- `app/` is the unverified shell: SQLite queries (sqlx), file moves, writing extracted files,
  and the command functions that read state, ask the library for a plan and carry it out.
- `tests/` exercises the library on concrete values.
