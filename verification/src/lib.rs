//! The decisions behind three pieces of the Jujutsu version control system:
//! `jj commit`, `jj file track`, and the matcher for files that are kept in Git
//! LFS.
//!
//! - `commit` and `track` hold the two commands. Each says what to do next and
//!   is told what came of it; it never touches a repository itself. `runs` says
//!   how a whole run is spoken of, and `commit_laws` what every run of `jj commit`
//!   comes to.
//! - `custom_matchers` turns the `.gitattributes` files of a repository into a
//!   matcher. `attributes_files` finds those files, `lines` and `attributes`
//!   read them, and `ignore_rules` compiles and matches their patterns.
//! - `repo_path`, `path_tree` and `fs_path` hold paths inside a repository,
//!   trees of them, and their names in the file system.
//! - `snapshot` holds what a snapshot of the working copy left untracked.
//! - `text` holds what the rest needs of strings.

pub mod attributes;
pub mod attributes_files;
pub mod commit;
pub mod commit_laws;
pub mod custom_matchers;
pub mod fs_path;
pub mod ignore_rules;
pub mod lines;
pub mod path_tree;
pub mod repo_path;
pub mod runs;
pub mod snapshot;
pub mod text;
pub mod track;
