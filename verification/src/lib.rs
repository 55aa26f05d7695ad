//! Locate a manifest file (`Cargo.toml` by default) by walking up the
//! directory tree.
//!
//! A search starts from a given path, which may be relative or absolute and
//! may name a file or a directory, and yields the full path of every ancestor
//! directory's copy of the manifest file, from the directory nearest the
//! starting point up to the file-system root.
//!
//! Paths are held as plain data ([`LexPath`]): an absolute-or-relative marker
//! and the list of components. Resolution of `.` and `..` is lexical
//! ([`normalize_path`]); only the per-directory "is this a regular file"
//! question is put to the file system.

mod path;
mod search;

pub use path::LexPath;
pub use path::PathView;
pub use path::canonical_parts;
pub use path::child_view;
pub use path::is_ancestor_of;
pub use path::lemma_canonical_fixed;
pub use path::lemma_normalize_canonical;
pub use path::lemma_normalize_idempotent;
pub use path::join_view;
pub use path::lemma_ancestor_transitive;
pub use path::lemma_emitted_parent;
pub use path::lemma_normalize_drops_trailing_dotdot;
pub use path::norm_view;
pub use path::normalize_path;
pub use path::parent_view;
pub use path::render_view;
pub use path::spec_parse;
pub use search::FindIter;
pub use search::FindIterView;
pub use search::StepOutcome;
pub use search::default_base;
pub use search::default_file_name;
pub use search::find;
pub use search::find_from_current_dir;
pub use search::lemma_matches_descend;
pub use search::opt_path_view;
pub use search::resolve_start;
pub use search::start_dir;
pub use search::starts_at;
pub use search::walk_step;
