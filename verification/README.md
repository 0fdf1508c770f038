# xtask

Maintenance checks for a repository of agent skills, written as a verified
library with a thin command line around it.

- `check-rust-stable` reads the Rust stable channel manifest and the skill
  files, finds the newest Rust release line the skills track, and reports
  (or opens) a sync issue when a newer line has shipped.
- `check-skill-snippets` finds the Rust code fences in the skills' Markdown,
  checks their attributes, and lays out a crate per skill whose tests compile
  and run every snippet.

Layout:

- `src/` — the library, verified with Verus: versions, baselines and the sync
  decision (`version`, `baselines`, `sync`, `issues`, `report`,
  `repository`), snippet discovery and the generated crates (`discovery`,
  `runner`, `render`, `setup`, `snippet_check`), text helpers (`text`, `order`), and
  the laws that span several functions (`laws`).
- `app/` — the command line: HTTP, GitHub, the file system and Cargo runs.
- `tests/` — tests of the library on concrete values.
