# bvm

A version manager for the bun runtime. The library in `src/` holds its logic,
verified with Verus; `app/` is the program around it (command line, files,
network, terminal).

- `src/grammar.rs`: the grammar of version texts (`bun-v1.0.0`, `v0.4`, `6`),
  with the digit class of the `regex` crate.
- `src/bun_version.rs`: `BunVersion`, read from a version text.
- `src/precedence.rs`: semantic versions and their precedence (Semantic
  Versioning 2.0.0), numbers held as `u64`.
- `src/version_order.rs`: the order that `semver_sort` sorts by: semantic
  versions by precedence, other names after them, ties in the given order.
- `src/utils.rs`: the short form of a version, sorting installed versions,
  which installed binary a version names, what `list` shows, the version a link points to, download
  progress.
- `src/cmds/`, `src/commands/`: the subcommands and their decisions (which
  release and asset to install, whether to reinstall, which version
  `uninstall latest` removes, the shell snippet).
- `src/paths.rs`, `src/text.rs`: paths and text, as std treats them.
- `src/laws.rs`: what holds across these functions.
