use vstd::prelude::*;

/// Which entry names are never scanned or watched.
pub mod exclude;
/// Metadata of a single file: reading time and source repository.
pub mod metadata;
/// Repository names in resolved symlink targets.
pub mod repo;
/// The depth-bounded scanner that builds the Markdown file tree.
pub mod scan;
/// Expansion of scope patterns with a wildcard segment.
pub mod scope;
/// Arguments handed to the external search tool.
pub mod search;
/// Document titles from a heading line.
pub mod title;
/// Classification of change events and the watcher's subscription slot.
pub mod watch;

verus! {

} // verus!
