# rah

Rah manages the tools a project needs (`rah use github:owner/repo@1.0`),
finds the project a directory belongs to, and writes the resolved environment
for shells.

- `src/` is the library, verified with Verus: parsing tool requirements,
  detecting project kinds, finding the nearest project and `rah.toml`,
  choosing backends, GitHub releases and assets, planning installations,
  assembling the environment (`PATH`, executables, `[env]`) and rendering it
  for POSIX shells, fish and PowerShell, and reading and editing the
  `[tools]` of `rah.toml`. The TOML itself is read and printed by the
  `toml` crate, whose calls the library trusts; which tools are read from
  a document, and how recording a tool changes it, are verified over a
  model of the document's entries.
- `app/` is the `rah` command line: argument handling, the file system,
  the network and archives, around the library.
- `tests/` exercises the library.
