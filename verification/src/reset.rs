//! Checking out a tree without touching files, and taking over what an update of
//! the files did.

use vstd::prelude::*;

use crate::backend;
use crate::backend::MergedTreeValue;
use crate::backend::TreeEntry;
use crate::backend::TreeValue;
use crate::file_state;
use crate::file_state::ExecBit;
use crate::file_state::ExecChangePolicy;
use crate::file_state::FileState;
use crate::file_state::FileType;
use crate::file_states;
use crate::file_states::FileStates;
use crate::file_states_map;
use crate::file_states_map::KeyedByPath;
use crate::path_model;
use crate::path_set::PathSet;
use crate::platform::Platform;
use crate::proto::FileStateEntry;
use crate::repo_path::RepoPathBuf;
use crate::snapshot_output;

verus! {

/// The type of file that a tree has at a path, for all that is known without
/// looking at the disk. A diff holds no trees.
pub open spec fn reset_file_type(
    platform: Platform,
    exec_policy: ExecChangePolicy,
    prev_exec: Option<ExecBit>,
    after: Seq<Option<TreeEntry>>,
) -> FileType {
    match backend::settled(after) {
        Some(TreeEntry::File { executable, .. }) => FileType::Normal {
            exec_bit: file_state::exec_bit_from_repo(platform, executable, exec_policy, prev_exec),
        },
        Some(TreeEntry::Symlink(_)) => FileType::Symlink,
        Some(TreeEntry::GitSubmodule(_)) => FileType::GitSubmodule,
        _ => FileType::Normal { exec_bit: ExecBit(false) },
    }
}

/// The state that a path is reset to: that of a file that was not looked at yet, or
/// none if the tree has nothing there.
pub open spec fn reset_state(
    platform: Platform,
    exec_policy: ExecChangePolicy,
    known: Seq<FileStateEntry>,
    path: Seq<char>,
    after: Seq<Option<TreeEntry>>,
) -> Option<FileState> {
    if backend::absent(after) {
        None
    } else {
        Some(
            FileState::unknown(
                reset_file_type(
                    platform,
                    exec_policy,
                    file_states::lookup_exec_bit(known, path),
                    after,
                ),
            ),
        )
    }
}

/// Whether the entries of a diff have different paths and hold no trees.
pub open spec fn file_diff(diff: Seq<(RepoPathBuf, MergedTreeValue)>) -> bool {
    &&& file_states_map::distinct_keys(diff)
    &&& forall|i: int|
        0 <= i < diff.len() ==> !(backend::settled((#[trigger] diff[i]).1@) matches Some(
            TreeEntry::Tree(_),
        ))
}

/// What a reset changes.
pub struct ResetChanges {
    pub changed_file_states: Vec<(RepoPathBuf, FileState)>,
    pub deleted_files: PathSet,
}

impl ResetChanges {
    /// Whether these are the changes that a diff calls for.
    pub open spec fn carry_out(
        &self,
        platform: Platform,
        exec_policy: ExecChangePolicy,
        known: Seq<FileStateEntry>,
        diff: Seq<(RepoPathBuf, MergedTreeValue)>,
    ) -> bool {
        &&& file_states_map::sorted_changes(self.changed_file_states@)
        &&& self.deleted_files.wf()
        &&& forall|i: int|
            0 <= i < diff.len() ==> file_states_map::merged_state(
                known,
                self.changed_file_states@,
                self.deleted_files@,
                (#[trigger] diff[i]).0@,
            ) == reset_state(platform, exec_policy, known, diff[i].0@, diff[i].1@)
        &&& forall|path: Seq<char>|
            !#[trigger] snapshot_output::lists_path(diff, path) ==> file_states_map::merged_state(
                known,
                self.changed_file_states@,
                self.deleted_files@,
                path,
            ) == file_states::lookup(known, path)
    }
}

fn type_after_reset(
    platform: Platform,
    exec_policy: ExecChangePolicy,
    prev_exec: Option<ExecBit>,
    after: &MergedTreeValue,
) -> (r: FileType)
    ensures
        r == reset_file_type(platform, exec_policy, prev_exec, after@),
{
    match after.as_normal() {
        Some(TreeValue::File { executable, .. }) => FileType::Normal {
            exec_bit: ExecBit::new_from_repo(platform, *executable, exec_policy, prev_exec),
        },
        Some(TreeValue::Symlink(_)) => FileType::Symlink,
        Some(TreeValue::GitSubmodule(_)) => FileType::GitSubmodule,
        _ => FileType::Normal { exec_bit: ExecBit(false) },
    }
}

/// Whether a diff removes a path.
pub open spec fn removes_path(
    diff: Seq<(RepoPathBuf, MergedTreeValue)>,
    path: Seq<char>,
) -> bool {
    exists|i: int|
        0 <= i < diff.len() && (#[trigger] diff[i]).0@ == path && backend::absent(diff[i].1@)
}

/// What a path becomes, by a list of new states in which each path of a diff that is
/// not removed has its slot. The changes hold these states in the order of their
/// paths.
proof fn lemma_reset_lookup(
    platform: Platform,
    exec_policy: ExecChangePolicy,
    known: Seq<FileStateEntry>,
    diff: Seq<(RepoPathBuf, MergedTreeValue)>,
    found: Seq<(RepoPathBuf, FileState)>,
    changes: ResetChanges,
    slots: Seq<int>,
    origin: Seq<int>,
)
    requires
        file_diff(diff),
        changes.deleted_files.wf(),
        file_states_map::sorted_changes(changes.changed_file_states@),
        forall|x: (RepoPathBuf, FileState)|
            changes.changed_file_states@.contains(x) <==> found.contains(x),
        slots.len() == diff.len(),
        origin.len() == found.len(),
        forall|i: int|
            0 <= i < diff.len() && !backend::absent((#[trigger] diff[i]).1@) ==> {
                &&& 0 <= slots[i] < origin.len()
                &&& found[slots[i]].0@ == diff[i].0@
                &&& Some(found[slots[i]].1) == reset_state(
                    platform,
                    exec_policy,
                    known,
                    diff[i].0@,
                    diff[i].1@,
                )
            },
        forall|k: int|
            0 <= k < origin.len() ==> {
                &&& 0 <= #[trigger] origin[k] < diff.len()
                &&& found[k].0@ == diff[origin[k]].0@
                &&& !backend::absent(diff[origin[k]].1@)
            },
        forall|path: Seq<char>| #[trigger]
            changes.deleted_files@.contains(path) <==> removes_path(diff, path),
    ensures
        changes.carry_out(platform, exec_policy, known, diff),
{
    let changed = changes.changed_file_states@;
    let deleted = changes.deleted_files@;
    assert forall|path: Seq<char>| #[trigger]
        file_states_map::changes_path(changed, path) implies exists|k: int|
        0 <= k < found.len() && (#[trigger] found[k]).0@ == path by {
        let m = choose|m: int| 0 <= m < changed.len() && (#[trigger] changed[m]).0@ == path;
        assert(changed.contains(changed[m]));
        assert(found.contains(changed[m]));
        let k = choose|k: int| 0 <= k < found.len() && found[k] == changed[m];
        assert(found[k].0@ == path);
    }
    assert forall|i: int| 0 <= i < diff.len() implies file_states_map::merged_state(
        known,
        changed,
        deleted,
        (#[trigger] diff[i]).0@,
    ) == reset_state(platform, exec_policy, known, diff[i].0@, diff[i].1@) by {
        let path = diff[i].0@;
        if backend::absent(diff[i].1@) {
            assert(removes_path(diff, path));
            if file_states_map::changes_path(changed, path) {
                let k = choose|k: int| 0 <= k < found.len() && (#[trigger] found[k]).0@ == path;
                assert(origin[k] != i);
                assert(diff[origin[k]].key() != diff[i].key());
            }
        } else {
            assert(found.contains(found[slots[i]]));
            assert(changed.contains(found[slots[i]]));
            file_states_map::lemma_changed_state(changed, found[slots[i]]);
        }
    }
    assert forall|path: Seq<char>|
        !#[trigger] snapshot_output::lists_path(diff, path) implies file_states_map::merged_state(
        known,
        changed,
        deleted,
        path,
    ) == file_states::lookup(known, path) by {
        if file_states_map::changes_path(changed, path) {
            let k = choose|k: int| 0 <= k < found.len() && (#[trigger] found[k]).0@ == path;
            assert(0 <= origin[k] < diff.len());
            assert(diff[origin[k]].0@ == path);
        }
        if removes_path(diff, path) {
            let i = choose|i: int|
                0 <= i < diff.len() && (#[trigger] diff[i]).0@ == path && backend::absent(
                    diff[i].1@,
                );
            assert(diff[i].0@ == path);
        }
    }
}

/// Finds out what a reset changes. `known` are the current file states, and `diff`
/// lists what the new tree has where it differs from the current one.
pub fn reset_changes(
    platform: Platform,
    exec_policy: ExecChangePolicy,
    known: FileStates<'_>,
    diff: Vec<(RepoPathBuf, MergedTreeValue)>,
) -> (r: ResetChanges)
    requires
        known.wf(),
        file_diff(diff@),
    ensures
        r.carry_out(platform, exec_policy, known@, diff@),
{
    let ghost list = diff@;
    let mut changed_file_states: Vec<(RepoPathBuf, FileState)> = Vec::new();
    let mut deleted_files = PathSet::new();
    let ghost mut slots: Seq<int> = Seq::empty();
    let ghost mut origin: Seq<int> = Seq::empty();
    for item in it: diff
        invariant
            it.seq() == list,
            known.wf(),
            file_diff(list),
            deleted_files.wf(),
            slots.len() == it.index(),
            origin.len() == changed_file_states@.len(),
            forall|i: int|
                0 <= i < it.index() && !backend::absent((#[trigger] list[i]).1@) ==> {
                    &&& 0 <= slots[i] < origin.len()
                    &&& changed_file_states@[slots[i]].0@ == list[i].0@
                    &&& Some(changed_file_states@[slots[i]].1) == reset_state(
                        platform,
                        exec_policy,
                        known@,
                        list[i].0@,
                        list[i].1@,
                    )
                },
            forall|k: int|
                0 <= k < origin.len() ==> {
                    &&& 0 <= #[trigger] origin[k] < it.index()
                    &&& changed_file_states@[k].0@ == list[origin[k]].0@
                    &&& !backend::absent(list[origin[k]].1@)
                },
            forall|k: int, m: int| 0 <= k < m < origin.len() ==> origin[k] < origin[m],
            forall|path: Seq<char>| #[trigger]
                deleted_files@.contains(path) <==> removes_path(
                    list.take(it.index() as int),
                    path,
                ),
    {
        let ghost n = it.index() as int;
        let ghost next = list.take(n + 1);
        let ghost earlier = deleted_files@;
        let (path, after) = item;
        proof {
            assert(list[n] == item);
            assert(path_model::valid_path(list[n].key()));
            assert(next =~= list.take(n).push(item));
        }
        if after.is_absent() {
            deleted_files.insert(path);
            proof {
                slots = slots.push(0);
                assert forall|p: Seq<char>| #[trigger]
                    deleted_files@.contains(p) <==> removes_path(next, p) by {
                    lemma_removes_more(list.take(n), item, p);
                    assert(earlier.contains(p) <==> removes_path(list.take(n), p));
                    if earlier.contains(p) {
                        let m = choose|m: int| 0 <= m < earlier.len() && earlier[m] == p;
                        assert(deleted_files@[m] == p);
                    }
                    if p == path@ && !earlier.contains(p) {
                        assert(deleted_files@[earlier.len() as int] == p);
                    }
                    if deleted_files@.contains(p) {
                        let m = choose|m: int|
                            0 <= m < deleted_files@.len() && deleted_files@[m] == p;
                        if m < earlier.len() {
                            assert(earlier[m] == p);
                        }
                    }
                }
            }
        } else {
            let prev_exec = known.get_exec_bit(path.as_ref());
            let file_type = type_after_reset(platform, exec_policy, prev_exec, &after);
            let file_state = FileState {
                file_type,
                mtime: file_state::MillisSinceEpoch(0),
                size: 0,
                materialized_conflict_data: None,
            };
            changed_file_states.push((path, file_state));
            proof {
                slots = slots.push(origin.len() as int);
                origin = origin.push(n);
                assert forall|p: Seq<char>| #[trigger]
                    deleted_files@.contains(p) <==> removes_path(next, p) by {
                    lemma_removes_more(list.take(n), item, p);
                }
            }
        }
    }
    let ghost found = changed_file_states@;
    proof {
        assert forall|k: int| 0 <= k < found.len() implies path_model::valid_path(
            (#[trigger] found[k]).key(),
        ) by {
            assert(path_model::valid_path(list[origin[k]].key()));
        }
        assert forall|k: int, m: int|
            0 <= k < found.len() && 0 <= m < found.len() && k != m implies (
        #[trigger] found[k]).key() != (#[trigger] found[m]).key() by {
            assert(origin[k] != origin[m]);
            assert(list[origin[k]].key() != list[origin[m]].key());
        }
    }
    file_states_map::sort_by_path(&mut changed_file_states);
    let r = ResetChanges { changed_file_states, deleted_files };
    proof {
        assert(list.take(list.len() as int) =~= list);
        file_states_map::lemma_sorted_keys(r.changed_file_states@);
        lemma_reset_lookup(platform, exec_policy, known@, list, found, r, slots, origin);
    }
    r
}

/// One more entry of a diff.
proof fn lemma_removes_more(
    seen: Seq<(RepoPathBuf, MergedTreeValue)>,
    entry: (RepoPathBuf, MergedTreeValue),
    path: Seq<char>,
)
    ensures
        removes_path(seen.push(entry), path) <==> {
            ||| removes_path(seen, path)
            ||| entry.0@ == path && backend::absent(entry.1@)
        },
{
    let next = seen.push(entry);
    if removes_path(seen, path) {
        let i = choose|i: int|
            0 <= i < seen.len() && (#[trigger] seen[i]).0@ == path && backend::absent(seen[i].1@);
        assert(next[i] == seen[i]);
    }
    if entry.0@ == path && backend::absent(entry.1@) {
        assert(next[seen.len() as int] == entry);
    }
    if removes_path(next, path) {
        let i = choose|i: int|
            0 <= i < next.len() && (#[trigger] next[i]).0@ == path && backend::absent(next[i].1@);
        if i < seen.len() {
            assert(seen[i] == next[i]);
        }
    }
}

} // verus!
