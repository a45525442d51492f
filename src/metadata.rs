use vstd::prelude::*;
use crate::repo::{extract_repo_name_from_path, repo_name};

verus! {

/// Metadata about a single file.
#[derive(Clone, Debug)]
pub struct FileMetadata {
    /// Word count (whitespace-delimited tokens in the file)
    pub word_count: u32,
    /// Estimated reading time in minutes (word_count / 200, minimum 1)
    pub reading_time_minutes: u32,
    /// File size in bytes
    pub file_size: u64,
    /// Last modified timestamp (seconds since epoch)
    pub modified: Option<u64>,
    /// Absolute file path
    pub file_path: String,
    /// If this path resolves elsewhere through a symlink, the resolved real path
    pub symlink_target: Option<String>,
    /// Repository name extracted from the symlink target
    pub source_repo_name: Option<String>,
}

pub open spec fn reading_minutes(word_count: int) -> int {
    if word_count / 200 >= 1 {
        word_count / 200
    } else {
        1
    }
}

/// Estimated reading time at 200 words a minute, at least one minute.
pub fn reading_time_minutes(word_count: u32) -> (r: u32)
    ensures
        r == reading_minutes(word_count as int),
{
    let m = word_count / 200;
    if m >= 1 {
        m
    } else {
        1
    }
}

/// Assembles the metadata of a file from what was read of it: the reading time
/// follows from the word count, and the repository name from the resolved target.
pub fn file_metadata(
    word_count: u32,
    file_size: u64,
    modified: Option<u64>,
    file_path: String,
    symlink_target: Option<String>,
) -> (r: FileMetadata)
    ensures
        r.word_count == word_count,
        r.reading_time_minutes == reading_minutes(word_count as int),
        r.file_size == file_size,
        r.modified == modified,
        r.file_path == file_path,
        r.symlink_target == symlink_target,
        symlink_target is None ==> r.source_repo_name is None,
        symlink_target matches Some(t) ==> (r.source_repo_name is None <==> repo_name(t@) is None),
        symlink_target matches Some(t) ==> (r.source_repo_name matches Some(n) ==> repo_name(t@)
            == Some(n@)),
{
    let source_repo_name = match &symlink_target {
        Some(t) => extract_repo_name_from_path(t.as_str()),
        None => None,
    };
    FileMetadata {
        word_count,
        reading_time_minutes: reading_time_minutes(word_count),
        file_size,
        modified,
        file_path,
        symlink_target,
        source_repo_name,
    }
}

} // verus!
