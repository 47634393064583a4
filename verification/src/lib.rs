//! Resolution of shell script files under two competing extension
//! conventions.
//!
//! The crate keeps an ordered registry of the supported file extensions
//! (highest precedence first), classifies existing paths by their suffix,
//! and resolves a (directory, logical name) pair to the first candidate
//! file that exists on disk, by precedence rather than by discovery order.

mod classify;
mod file_id;
mod registry;
mod resolve;

pub use classify::classify_from;
pub use classify::classify_spec;
pub use classify::get_shell_extension;
pub use classify::has_ext_spec;
pub use classify::has_shell_extension;
pub use classify::lemma_classifier_consistency;
pub use classify::strip_shell_extension;
pub use classify::strip_spec;
pub use classify::suffix_matches;
pub use file_id::FileId;
pub use registry::extension_order;
pub use registry::spec_suffix;
pub use registry::ShellExtension;
pub use resolve::candidate_path;
pub use resolve::candidate_spec;
pub use resolve::find_file_with_any_extension;
pub use resolve::lemma_candidate_classifies_as_built;
pub use resolve::lemma_legacy_only;
pub use resolve::lemma_no_candidate_no_result;
pub use resolve::lemma_primary_precedence;
pub use resolve::lemma_resolution_uncached;
pub use resolve::resolve_from;
pub use resolve::resolve_spec;
