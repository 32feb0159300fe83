# cargo_furnish

`cargo furnish` keeps the crates of a workspace uniform: README badges and
license section, the `#![doc = include_str!("../README.md")]` line, and the
metadata read from the workspace manifest.

- `src/` is the library, verified with Verus: README generation and checks
  (`readme`), the doc-include check and fix (`doc_injection`), reading the
  workspace and member manifests (`workspace`, over `toml_edit` through the
  declarations in `toml`), the `update` arguments (`update`), the closing
  summary of `check` (`check`), and the text model they share (`text`,
  `source`).
- `app/` is the command-line program around it: argument parsing, file
  access, globbing, and the diagnostics rendered with `miette`.
- `tests/` runs the library on concrete inputs.
