# jj_commands

The decisions behind `jj commit`, `jj file track` and the matcher for files
under Git LFS, written and proved in Verus.

- `src/` is the verified library. The two commands are state machines: they say
  what to do next, and are told what came of it. The matcher is built from the
  bytes of `.gitattributes` files and answers for paths of the repository.
  Pattern matching is done by the `ignore` and `globset` crates; what the proofs
  take on trust about them stands in `src/ignore_rules.rs` and
  `src/attributes_files.rs`, and what they take on trust about the standard
  library in `src/fs_path.rs`, `src/lines.rs` and `src/text.rs`.
- `app/` connects the library to files, terminals and repositories.
- `tests/` runs the library.
