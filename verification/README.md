# mdev

A developer toolkit for Flutter, Android and iOS projects, with a purge that
also knows the build caches of Node, Rust, Go, Ruby/Rails and Python projects.

## Layout

- `src/` — the library, written in Verus and checked by the verifier:
  project detection, the classification of `adb`, `xcrun` and `flutter`
  replies, the per-platform fan-out of device commands, purge planning (which
  paths each cleaner targets, worktree and junk scans), AVD `config.ini`
  editing, emulator network repair decisions, simulator selection, keystore
  and doctor checks.
  Everything the commands do to the machine goes through the `Runner` trait
  (`src/runner.rs`): processes, files, environment variables and prompts.
  A `Session` (`src/session.rs`) records each request with its answer, and
  the contracts of the commands say which requests they make, in which order,
  and how their results follow from the answers they got.
- `app/` — the `mdev` program: command-line parsing, the `Runner` that talks
  to the real machine and terminal, the parallel `doall` runner and size
  formatting.
- `tests/` — tests of the library against scripted runners and an in-memory
  file tree.
