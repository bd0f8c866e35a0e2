# super_core

The verified core of the Super process supervisor: the decisions the
daemon takes about programs, schedules, logs, upgrades, plugins and
authentication, written in Verus with their contracts proved.

* `src/` is the library. Each module states its behaviour in `requires` /
  `ensures` clauses over mathematical models (sequences, maps, spec
  functions) and is checked by Verus. Calls into outside crates (`cron`,
  `chrono`, `uuid`, `rand`, `hex`, `sha2`, `serde_json`, `hostname`, std paths) sit behind small
  trusted wrappers whose contracts say what the crate documents.
* `tests/` runs the library on concrete values.
* `app/` is the daemon around it (`superd`): it reads and writes the
  snapshot and stack files, launches processes, captures their output,
  unpacks update archives (`tar`, `flate2`, `zip`) along the library's
  extraction plan, and feeds each event back to the library.
