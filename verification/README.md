# mod_manager

A manager for Minecraft modpacks (PrismLauncher instances and plain
`minecraft/mods` folders) whose decisions are proved with Verus.

- `src/` is the verified library: reading jar names, packwiz index entries
  (through the `toml` crate) and Fabric/Quilt metadata (through
  `serde_json`), the per-mod label file, provider payloads (Modrinth,
  CurseForge), update checks and the retry schedule of update fetching,
  the catalog install planner, covers, caches, the remote server sync (one
  lane at a time, as a step function) and control commands, RCON packets,
  and more. Public functions state their results in `ensures`. Where a
  result comes from an outside crate, the contract states it or, where it
  takes pages to state (a digest, a parsed document), names it; where it
  comes from the disk (the canonical form of a path), nothing is claimed of
  what came back and the contract states what the library does with it. The
  laws of the library (a stored cache entry is found again, a deleted mod
  leaves no user behind, `usedBy` is the reverse of the dependencies, …)
  are public proof functions.
- `tests/` runs the library on concrete values.
- `app/` is a small command-line front end: it reads and writes files, runs
  `ssh` and `unzip`, and hands what it read to the library. It has no
  network client, so the provider features (identifying sources, label,
  cover and dependency sync, update checks, catalog install) are only
  available as library functions.
