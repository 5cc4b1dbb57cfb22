# bevy_fluent_typed

Typed Fluent localization catalogs for the Bevy engine, with the runtime's
decisions proved correct by Verus.

## Layout

- `src/` — the verified library.
  - `addresses` — asset-address safety: relative, non-escaping directories,
    single-directory locales and file-naming modules.
  - `catalog` — the provider contract (`FluentCatalog`) and locale lookup.
  - `state` — the active language and the last-known-good catalog of every
    language (`Localization`), with its laws.
  - `loading` — one aggregate load: module addresses, read outcomes, candidates
    per language and their atomic publication, with its laws.
  - `message`, `bindings`, `plugin` — deferred messages, text refresh and the
    plugin's settings.
  - `definition` — validation of a generated provider's definition file.
  - `matrix`, `graph`, `checks`, `runner` — the release-compatibility runner's
    parsing and judgements of cargo output.
  - `text` — verified string helpers shared by the modules above.
- `tests/` — tests of the library on concrete values.
- `app/` — the engine plugin and its systems, the code-generation bridge and the
  compatibility runner's process and file work, all delegating their decisions
  to the library.
