//! What a file on disk becomes in the tree.

use vstd::prelude::*;

use crate::backend;
use crate::backend::MergedTreeValue;
use crate::backend::TreeEntry;
use crate::backend::TreeValue;
use crate::file_state::ExecBit;
use crate::file_state::ExecChangePolicy;
use crate::file_state::FileState;
use crate::file_state::FileType;
use crate::file_state::MaterializedConflictData;
use crate::file_state::MillisSinceEpoch;
use crate::fs_path;

verus! {

/// Length of the conflict markers in a file of which nothing else is known.
pub const MIN_CONFLICT_MARKER_LEN: usize = 7;

/// How a present file is stored.
#[derive(Clone, Copy, Debug, PartialEq, Eq, Structural)]
pub enum StorePlan {
    /// Its contents as a file.
    File { exec_bit: ExecBit },
    /// It contained a conflict before: any conflict markers in it, which have the
    /// given length, are read back into a conflict.
    Conflict { exec_bit: ExecBit, conflict_marker_len: usize },
    /// What the tree has stays as it is.
    Keep,
    /// As a symlink.
    Symlink,
}

/// What came of storing a file.
#[derive(Debug)]
pub enum StoredContents {
    /// The contents were stored under an id.
    File { id: Vec<u8> },
    /// The ids of the files that the conflict consists of now. `copy_id` and
    /// `executable` are what those of the old conflict can be resolved to.
    Conflict {
        file_ids: Vec<Option<Vec<u8>>>,
        copy_id: Option<Vec<u8>>,
        executable: Option<bool>,
    },
    /// Nothing was stored.
    Kept,
    /// The target was stored under an id.
    Symlink { id: Vec<u8> },
}

/// Whether a file is known not to have changed since its state was recorded.
///
/// If the file's mtime was set at the same time as the state file's own mtime,
/// then we don't know if the file was modified before or after the state was
/// recorded.
pub open spec fn known_clean(
    current: Option<FileState>,
    new: FileState,
    own_mtime: MillisSinceEpoch,
) -> bool {
    &&& current matches Some(current)
    &&& new.clean_since(current)
    &&& current.mtime.0 < own_mtime.0
}

/// Whether a file is known not to have changed.
pub fn is_known_clean(
    current: Option<FileState>,
    new: &FileState,
    own_mtime: MillisSinceEpoch,
) -> (r: bool)
    ensures
        r == known_clean(current, *new, own_mtime),
{
    match current {
        // untracked
        None => false,
        Some(current) => new.is_clean(&current) && current.mtime.0 < own_mtime.0,
    }
}

/// The type as which a file is stored: where there are no symlinks, a regular
/// file stands for the symlink that the tree has.
pub open spec fn stored_type(
    symlink_support: bool,
    file_type: FileType,
    current: Seq<Option<TreeEntry>>,
) -> FileType {
    if !symlink_support && file_type is Normal && (backend::settled(current) matches Some(
        TreeEntry::Symlink(_),
    )) {
        FileType::Symlink
    } else {
        file_type
    }
}

/// How a present file is stored, by what the tree has at its path.
pub open spec fn store_plan(
    file_type: FileType,
    current: Seq<Option<TreeEntry>>,
    conflict_data: Option<MaterializedConflictData>,
) -> StorePlan {
    match file_type {
        FileType::Normal { exec_bit } => if current.len() == 1 {
            StorePlan::File { exec_bit }
        } else if backend::only_files(current) {
            StorePlan::Conflict {
                exec_bit,
                conflict_marker_len: match conflict_data {
                    Some(data) => data.conflict_marker_len as usize,
                    None => MIN_CONFLICT_MARKER_LEN,
                },
            }
        } else {
            StorePlan::Keep
        },
        FileType::Symlink | FileType::GitSubmodule => StorePlan::Symlink,
    }
}

/// Decides how a present file is stored. `current_state` is the recorded state
/// of its path. A submodule is not stored.
pub fn plan_store(
    symlink_support: bool,
    new_state: &FileState,
    current: &MergedTreeValue,
    current_state: Option<FileState>,
) -> (r: StorePlan)
    requires
        !(new_state.file_type is GitSubmodule),
    ensures
        r == store_plan(
            stored_type(symlink_support, new_state.file_type, current@),
            current@,
            recorded_conflict(current_state),
        ),
{
    match new_state.file_type {
        FileType::Normal { exec_bit } => {
            if !symlink_support {
                if let Some(TreeValue::Symlink(_)) = current.as_normal() {
                    return StorePlan::Symlink;
                }
            }
            if current.is_resolved() {
                StorePlan::File { exec_bit }
            } else if current.has_only_files() {
                // If the file contained a conflict before and is a normal file on
                // disk, we try to parse any conflict markers in the file into a
                // conflict.
                let conflict_marker_len = match current_state {
                    Some(state) => match state.materialized_conflict_data {
                        Some(data) => data.conflict_marker_len as usize,
                        None => MIN_CONFLICT_MARKER_LEN,
                    },
                    None => MIN_CONFLICT_MARKER_LEN,
                };
                StorePlan::Conflict { exec_bit, conflict_marker_len }
            } else {
                StorePlan::Keep
            }
        },
        FileType::Symlink | FileType::GitSubmodule => StorePlan::Symlink,
    }
}

/// What is recorded of a conflict that was written to a file.
pub open spec fn recorded_conflict(state: Option<FileState>) -> Option<MaterializedConflictData> {
    match state {
        Some(state) => state.materialized_conflict_data,
        None => None,
    }
}

/// The bytes of optional ids.
pub open spec fn id_views(ids: Seq<Option<Vec<u8>>>) -> Seq<Option<Seq<u8>>> {
    ids.map_values(|id: Option<Vec<u8>>| id_view(id))
}

pub open spec fn id_view(id: Option<Vec<u8>>) -> Option<Seq<u8>> {
    match id {
        Some(id) => Some(id@),
        None => None,
    }
}

/// The ids of the files that a conflict consists of.
pub open spec fn file_ids(terms: Seq<Option<TreeEntry>>) -> Seq<Option<Seq<u8>>> {
    terms.map_values(|term: Option<TreeEntry>| file_id(term))
}

pub open spec fn file_id(term: Option<TreeEntry>) -> Option<Seq<u8>> {
    match term {
        Some(TreeEntry::File { id, .. }) => Some(id),
        _ => None,
    }
}

/// The term with another file id.
pub open spec fn with_file_id(term: Option<TreeEntry>, id: Option<Seq<u8>>) -> Option<TreeEntry> {
    match (term, id) {
        (Some(TreeEntry::File { executable, copy_id, .. }), Some(id)) => Some(
            TreeEntry::File { id, executable, copy_id },
        ),
        _ => term,
    }
}

/// A conflict with other file ids.
pub open spec fn with_file_ids(
    terms: Seq<Option<TreeEntry>>,
    ids: Seq<Option<Seq<u8>>>,
) -> Seq<Option<TreeEntry>> {
    Seq::new(terms.len(), |i: int| with_file_id(terms[i], ids[i]))
}

/// The executable bit and the copy id of the file that the tree has.
pub open spec fn settled_file(terms: Seq<Option<TreeEntry>>) -> (Option<bool>, Seq<u8>) {
    match backend::settled(terms) {
        Some(TreeEntry::File { executable, copy_id, .. }) => (Some(executable), copy_id),
        _ => (None, Seq::empty()),
    }
}

/// The executable bit to store.
pub open spec fn stored_executable(
    exec_bit: ExecBit,
    exec_policy: ExecChangePolicy,
    prev_in_repo: Option<bool>,
) -> bool {
    match exec_policy {
        ExecChangePolicy::Ignore => prev_in_repo == Some(true),
        ExecChangePolicy::Respect => exec_bit.0,
    }
}

/// Whether what was stored is what was planned.
pub open spec fn fits(
    plan: StorePlan,
    current: Seq<Option<TreeEntry>>,
    contents: StoredContents,
) -> bool {
    match contents {
        StoredContents::File { .. } => plan is File,
        StoredContents::Conflict { file_ids: ids, .. } => {
            &&& plan is Conflict
            &&& if ids@.len() == 1 {
                ids@[0] is Some
            } else {
                &&& ids@.len() == current.len()
                &&& forall|i: int|
                    0 <= i < current.len() ==> (#[trigger] current[i] is Some) == (ids@[i] is Some)
            }
        },
        StoredContents::Kept => plan is Keep,
        StoredContents::Symlink { .. } => plan is Symlink,
    }
}

/// What the tree is to have at the path of a file that was stored.
pub open spec fn stored_terms(
    plan: StorePlan,
    exec_policy: ExecChangePolicy,
    current: Seq<Option<TreeEntry>>,
    contents: StoredContents,
) -> Seq<Option<TreeEntry>> {
    match (plan, contents) {
        (StorePlan::File { exec_bit }, StoredContents::File { id }) => {
            let (executable, copy_id) = settled_file(current);
            seq![
                Some(
                    TreeEntry::File {
                        id: id@,
                        executable: stored_executable(exec_bit, exec_policy, executable),
                        copy_id,
                    },
                ),
            ]
        },
        (
            StorePlan::Conflict { exec_bit, .. },
            StoredContents::Conflict { file_ids: ids, copy_id, executable },
        ) => if ids@.len() == 1 {
            seq![
                Some(
                    TreeEntry::File {
                        id: ids@[0]->0@,
                        executable: stored_executable(exec_bit, exec_policy, executable),
                        copy_id: match copy_id {
                            Some(copy_id) => copy_id@,
                            None => Seq::empty(),
                        },
                    },
                ),
            ]
        } else {
            with_file_ids(current, id_views(ids@))
        },
        (_, StoredContents::Symlink { id }) => seq![Some(TreeEntry::Symlink(id@))],
        _ => current,
    }
}

/// The ids of the files that a conflict consists of.
pub fn conflict_file_ids(current: &MergedTreeValue) -> (r: Vec<Option<Vec<u8>>>)
    ensures
        id_views(r@) == file_ids(current@),
{
    let mut out: Vec<Option<Vec<u8>>> = Vec::new();
    let mut i: usize = 0;
    while i < current.len()
        invariant
            i <= current@.len(),
            i == out@.len(),
            forall|j: int| 0 <= j < i ==> id_view(#[trigger] out@[j]) == file_id(current@[j]),
        decreases current@.len() - i,
    {
        let id = match current.term(i) {
            Some(TreeValue::File { id, .. }) => Some(fs_path::copy_bytes(id)),
            _ => None,
        };
        out.push(id);
        i += 1;
    }
    assert(id_views(out@) =~= file_ids(current@));
    out
}

fn with_new_file_ids(current: &MergedTreeValue, ids: &Vec<Option<Vec<u8>>>) -> (r: MergedTreeValue)
    requires
        ids@.len() == current@.len(),
    ensures
        r@ == with_file_ids(current@, id_views(ids@)),
{
    let mut terms: Vec<Option<TreeValue>> = Vec::new();
    let mut i: usize = 0;
    while i < current.len()
        invariant
            i <= current@.len() == ids@.len(),
            i == terms@.len(),
            forall|j: int|
                0 <= j < i ==> backend::term_entry(#[trigger] terms@[j]) == with_file_id(
                    current@[j],
                    id_view(ids@[j]),
                ),
        decreases current@.len() - i,
    {
        let term = match (current.term(i), &ids[i]) {
            (Some(TreeValue::File { executable, copy_id, .. }), Some(id)) => Some(
                TreeValue::File {
                    id: fs_path::copy_bytes(id),
                    executable: *executable,
                    copy_id: fs_path::copy_bytes(copy_id),
                },
            ),
            (Some(value), _) => Some(value.duplicate()),
            (None, _) => None,
        };
        terms.push(term);
        i += 1;
    }
    let r = MergedTreeValue::from_terms(terms);
    assert(r@ =~= with_file_ids(current@, id_views(ids@)));
    r
}

/// Whether what was stored is what was planned.
pub fn contents_fit(
    plan: StorePlan,
    current: &MergedTreeValue,
    contents: &StoredContents,
) -> (r: bool)
    ensures
        r == fits(plan, current@, *contents),
{
    match (plan, contents) {
        (StorePlan::File { .. }, StoredContents::File { .. }) => true,
        (StorePlan::Conflict { .. }, StoredContents::Conflict { file_ids: ids, .. }) => {
            if ids.len() == 1 {
                return ids[0].is_some();
            }
            if ids.len() != current.len() {
                return false;
            }
            let mut i: usize = 0;
            while i < ids.len()
                invariant
                    i <= ids@.len() == current@.len(),
                    ids@.len() != 1,
                    contents matches StoredContents::Conflict { file_ids, .. } && file_ids == *ids,
                    forall|j: int|
                        0 <= j < i ==> (#[trigger] current@[j] is Some) == (ids@[j] is Some),
                decreases ids@.len() - i,
            {
                if current.term(i).is_some() != ids[i].is_some() {
                    assert((current@[i as int] is Some) != (ids@[i as int] is Some));
                    return false;
                }
                i += 1;
            }
            true
        },
        (StorePlan::Keep, StoredContents::Kept) => true,
        (StorePlan::Symlink, StoredContents::Symlink { .. }) => true,
        _ => false,
    }
}

/// What the tree is to have at the path of a file that was stored as planned.
pub fn value_after_store(
    plan: StorePlan,
    exec_policy: ExecChangePolicy,
    current: &MergedTreeValue,
    contents: StoredContents,
) -> (r: MergedTreeValue)
    requires
        fits(plan, current@, contents),
    ensures
        r@ == stored_terms(plan, exec_policy, current@, contents),
{
    match (plan, contents) {
        (StorePlan::File { exec_bit }, StoredContents::File { id }) => {
            // Preserve the executable bit, if it is ignored, and the copy id from the
            // current tree
            let (prev_in_repo, copy_id) = match current.as_normal() {
                Some(TreeValue::File { executable, copy_id, .. }) => (
                    Some(*executable),
                    fs_path::copy_bytes(copy_id),
                ),
                _ => (None, Vec::new()),
            };
            let executable = exec_bit.for_tree_value(exec_policy, prev_in_repo);
            MergedTreeValue::normal(TreeValue::File { id, executable, copy_id })
        },
        (
            StorePlan::Conflict { exec_bit, .. },
            StoredContents::Conflict { file_ids: ids, copy_id, executable },
        ) => {
            let mut ids = ids;
            if ids.len() == 1 {
                let copy_id = match copy_id {
                    Some(copy_id) => copy_id,
                    None => Vec::new(),
                };
                let executable = exec_bit.for_tree_value(exec_policy, executable);
                match ids.pop() {
                    Some(Some(id)) => MergedTreeValue::normal(
                        TreeValue::File { id, executable, copy_id },
                    ),
                    _ => current.duplicate(),
                }
            } else {
                with_new_file_ids(current, &ids)
            }
        },
        (_, StoredContents::Symlink { id }) => MergedTreeValue::normal(TreeValue::Symlink(id)),
        _ => current.duplicate(),
    }
}

/// The new value for a path, if it differs from what the tree has.
pub fn changed_value(current: &MergedTreeValue, new: MergedTreeValue) -> (r: Option<
    MergedTreeValue,
>)
    ensures
        r == if new@ != current@ {
            Some(new)
        } else {
            None
        },
{
    if new.same_as(current) {
        None
    } else {
        Some(new)
    }
}

/// A file that is there is never stored as nothing.
pub proof fn lemma_stored_not_absent(
    plan: StorePlan,
    exec_policy: ExecChangePolicy,
    current: Seq<Option<TreeEntry>>,
    contents: StoredContents,
)
    requires
        fits(plan, current, contents),
        plan is Keep || plan is Conflict ==> current.len() != 1,
    ensures
        !backend::absent(stored_terms(plan, exec_policy, current, contents)),
{
    let terms = stored_terms(plan, exec_policy, current, contents);
    if terms.len() == 1 {
        assert(terms[0] is Some);
    }
    if backend::absent(terms) {
        assert(terms.len() == 1);
        assert(terms[0] is None);
    }
}

/// Writing a conflict back with the ids that it has changes nothing.
pub proof fn lemma_same_file_ids(current: Seq<Option<TreeEntry>>)
    ensures
        with_file_ids(current, file_ids(current)) == current,
{
    assert(with_file_ids(current, file_ids(current)) =~= current);
}

/// A file that is not tracked, and that the tree does not have, is stored as new.
pub proof fn lemma_untracked_is_stored(
    symlink_support: bool,
    new: FileState,
    own_mtime: MillisSinceEpoch,
    exec_policy: ExecChangePolicy,
    current: Seq<Option<TreeEntry>>,
    contents: StoredContents,
)
    requires
        backend::absent(current),
        fits(
            store_plan(stored_type(symlink_support, new.file_type, current), current, None),
            current,
            contents,
        ),
    ensures
        !known_clean(None, new, own_mtime),
        stored_terms(
            store_plan(stored_type(symlink_support, new.file_type, current), current, None),
            exec_policy,
            current,
            contents,
        ) != current,
{
    let plan = store_plan(stored_type(symlink_support, new.file_type, current), current, None);
    assert(current.len() == 1);
    lemma_stored_not_absent(plan, exec_policy, current, contents);
}

/// A file that was modified when the state was saved, or later, is read again.
pub proof fn lemma_recent_file_is_read(
    current: FileState,
    new: FileState,
    own_mtime: MillisSinceEpoch,
)
    requires
        current.mtime.0 >= own_mtime.0 || new.mtime.0 >= own_mtime.0,
    ensures
        !known_clean(Some(current), new, own_mtime),
{
}

/// A file of which only its type is recorded is read, unless it is empty and was
/// modified at the very point in time that stands for an unknown one.
pub proof fn lemma_unknown_file_is_read(
    file_type: FileType,
    new: FileState,
    own_mtime: MillisSinceEpoch,
)
    requires
        new.size != 0 || new.mtime.0 != 0,
    ensures
        !known_clean(Some(FileState::unknown(file_type)), new, own_mtime),
{
}

} // verus!
