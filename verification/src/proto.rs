//! The stored form of working-copy state, field by field.

use vstd::prelude::*;

verus! {

/// Stored kind of a tracked file.
#[derive(Clone, Copy, Debug, PartialEq, Eq, Structural)]
pub enum FileTypeProto {
    Normal,
    Symlink,
    Executable,
    /// No longer written. Read as a normal file.
    Conflict,
    GitSubmodule,
}

/// Stored facts about a conflict that was written to a file.
#[derive(Clone, Copy, Debug, PartialEq, Eq, Structural)]
pub struct MaterializedConflictDataProto {
    pub conflict_marker_len: u32,
}

/// Stored state of one file.
#[derive(Clone, Copy, Debug, PartialEq, Eq, Structural)]
pub struct FileStateProto {
    pub file_type: FileTypeProto,
    pub mtime_millis_since_epoch: i64,
    pub size: u64,
    pub materialized_conflict_data: Option<MaterializedConflictDataProto>,
}

/// Stored state of one file with its path.
#[derive(Debug, PartialEq, Eq)]
pub struct FileStateEntry {
    pub path: String,
    pub state: Option<FileStateProto>,
}

impl Clone for FileStateEntry {
    fn clone(&self) -> (r: FileStateEntry)
        ensures
            r == *self,
    {
        FileStateEntry { path: self.path.clone(), state: self.state }
    }
}

/// Stored path prefixes of a sparse working copy.
#[derive(Clone, Debug, PartialEq, Eq)]
pub struct SparsePatternsProto {
    pub prefixes: Vec<String>,
}

/// A point in time of a filesystem monitor, in its stored form.
#[derive(Clone, Debug, PartialEq, Eq)]
pub struct WatchmanClock {
    pub encoded: Vec<u8>,
}

/// Stored state of a working copy.
#[derive(Clone, Debug, PartialEq, Eq)]
pub struct TreeStateProto {
    /// No longer written. Read if `tree_ids` is empty.
    pub legacy_tree_id: Vec<u8>,
    /// Alternating positive and negative terms if there are conflicts.
    pub tree_ids: Vec<Vec<u8>>,
    pub conflict_labels: Vec<String>,
    pub file_states: Vec<FileStateEntry>,
    pub is_file_states_sorted: bool,
    pub sparse_patterns: Option<SparsePatternsProto>,
    pub watchman_clock: Option<WatchmanClock>,
}

/// Stored facts about what is checked out.
#[derive(Clone, Debug, PartialEq, Eq)]
pub struct CheckoutProto {
    pub operation_id: Vec<u8>,
    pub workspace_name: String,
}

} // verus!
