//! What is known of files is found again.
//!
//! The laws speak of what the functions are called with and of what they return.

use vstd::prelude::*;

use crate::file_state;
use crate::file_state::ExecBit;
use crate::file_state::FileState;
use crate::file_state::FileType;
use crate::file_states;
use crate::file_states::FileStates;
use crate::file_states_map;
use crate::file_states_map::FileStatesMap;
use crate::file_states_map::KeyedByPath;
use crate::matcher_laws;
use crate::path_model;
use crate::path_set::PathSet;
use crate::proto::FileStateEntry;
use crate::proto::FileStateProto;
use crate::proto::FileTypeProto;
use crate::repo_path;
use crate::repo_path::RepoPath;
use crate::repo_path::RepoPathBuf;
use crate::repo_path::RepoPathComponent;
use crate::text::Order;

verus! {

/// A stored state is read back as it was.
pub proof fn lemma_stored_state_read(state: FileState, proto: FileStateProto, r: FileState)
    requires
        call_ensures(file_state::file_state_to_proto, (&state,), proto),
        call_ensures(file_state::file_state_from_proto, (&proto,), r),
    ensures
        r == state,
        proto.mtime_millis_since_epoch == state.mtime.0,
        proto.size == state.size,
        proto.file_type == FileTypeProto::Executable <==> state.file_type == (FileType::Normal {
            exec_bit: ExecBit(true),
        }),
        proto.file_type == FileTypeProto::Normal <==> state.file_type == (FileType::Normal {
            exec_bit: ExecBit(false),
        }),
        proto.file_type == FileTypeProto::Symlink <==> state.file_type == FileType::Symlink,
        proto.file_type == FileTypeProto::GitSubmodule <==> state.file_type
            == FileType::GitSubmodule,
{
}

/// The kind that is no longer written is read as a file that is not executable.
pub proof fn lemma_old_kind_read(proto: FileStateProto, r: FileState)
    requires
        proto.file_type == FileTypeProto::Conflict,
        call_ensures(file_state::file_state_from_proto, (&proto,), r),
    ensures
        r.file_type == (FileType::Normal { exec_bit: ExecBit(false) }),
{
}

/// A stored entry is read back with its path and its state.
pub proof fn lemma_stored_entry_read<'a>(
    path: RepoPathBuf,
    state: FileState,
    entry: FileStateEntry,
    r: (RepoPath<'a>, FileState),
    copy: &'a FileStateEntry,
)
    requires
        call_ensures(file_states::file_state_entry_to_proto, (path, &state), entry),
        *copy == entry,
        call_ensures(file_states::file_state_entry_from_proto, (copy,), r),
    ensures
        r.0@ == path@,
        r.1 == state,
{
}

/// A file is known exactly if it has a state, which is that of its entry. All ways to ask for
/// it agree.
pub proof fn lemma_known_file(
    states: FileStates<'_>,
    path: RepoPath<'_>,
    i: usize,
    entry: (RepoPath<'_>, FileState),
    state: Option<FileState>,
    is_known: bool,
    bit: Option<ExecBit>,
    len: usize,
)
    requires
        states.wf(),
        i < states@.len(),
        call_ensures(FileStates::<'_>::entry, (&states, i), entry),
        call_ensures(FileStates::<'_>::get, (&states, path), state),
        call_ensures(FileStates::<'_>::contains_path, (&states, path), is_known),
        call_ensures(FileStates::<'_>::get_exec_bit, (&states, path), bit),
        call_ensures(FileStates::<'_>::len, (&states,), len),
    ensures
        i < len,
        entry.0@ == path@ ==> state == Some(entry.1),
        is_known <==> state is Some,
        is_known <==> exists|k: int| 0 <= k < len && #[trigger] states@[k].path@ == path@,
        match bit {
            Some(b) => state is Some && state->0.file_type == (FileType::Normal { exec_bit: b }),
            None => state is None || !(state->0.file_type is Normal),
        },
{
    file_states::lemma_lookup(states@, i as int);
    if states@[i as int].path@ == path@ {
        assert(file_states::has_path(states@, path@));
    }
}

/// The files are listed in the order of their paths, each once, with their states.
pub proof fn lemma_listed_files<'a>(
    states: FileStates<'a>,
    list: Vec<(RepoPath<'a>, FileState)>,
    paths: Vec<RepoPath<'a>>,
    i: int,
    state: Option<FileState>,
    is_empty: bool,
)
    requires
        states.wf(),
        call_ensures(FileStates::<'a>::iter, (&states,), list),
        call_ensures(FileStates::<'a>::paths, (&states,), paths),
        call_ensures(FileStates::<'a>::is_empty, (&states,), is_empty),
        0 <= i < list@.len(),
        call_ensures(FileStates::<'a>::get, (&states, list@[i].0), state),
    ensures
        !is_empty,
        list@.len() == paths@.len(),
        paths@[i]@ == list@[i].0@,
        state == Some(list@[i].1),
        forall|j: int| 0 <= j < list@.len() && j != i ==> (#[trigger] list@[j]).0@ != list@[i].0@,
{
    file_states::lemma_lookup(states@, i);
    assert(file_states::has_path(states@, states@[i].path@));
    assert forall|j: int| 0 <= j < list@.len() && j != i implies (#[trigger] list@[j]).0@
        != list@[i].0@ by {
        path_model::lemma_path_order_equal(states@[i].path@, states@[j].path@);
        path_model::lemma_path_order_equal(states@[j].path@, states@[i].path@);
    }
}

/// The states below a directory are those of the files at or below it, and of no others.
pub proof fn lemma_states_below(
    states: FileStates<'_>,
    base: RepoPath<'_>,
    r: FileStates<'_>,
    path: RepoPath<'_>,
    state: Option<FileState>,
    below: Option<FileState>,
)
    requires
        states.wf(),
        call_ensures(FileStates::<'_>::prefixed, (&states, base), r),
        call_ensures(FileStates::<'_>::get, (&states, path), state),
        call_ensures(FileStates::<'_>::get, (&r, path), below),
        path_model::valid_path(base@),
        path_model::valid_path(path@),
    ensures
        below == if matcher_laws::at_or_below(base@, path@) {
            state
        } else {
            None
        },
{
    lemma_lookup_under(states@, base@, path@);
}

proof fn lemma_lookup_under(data: Seq<FileStateEntry>, base: Seq<char>, path: Seq<char>)
    requires
        file_states::sorted_entries(data),
        file_states::sorted_entries(file_states::entries_under(data, base)),
        path_model::valid_path(base),
        path_model::valid_path(path),
    ensures
        file_states::lookup(file_states::entries_under(data, base), path)
            == if matcher_laws::at_or_below(base, path) {
            file_states::lookup(data, path)
        } else {
            None
        },
{
    let pred = |entry: FileStateEntry| path_model::under(base, entry.path@);
    let kept = file_states::entries_under(data, base);
    repo_path::lemma_stripped(path, base);
    matcher_laws::lemma_covers(base, path);
    if file_states::has_path(data, path) && path_model::under(base, path) {
        let i = choose|i: int| 0 <= i < data.len() && #[trigger] data[i].path@ == path;
        assert(pred(data[i]));
        data.lemma_filter_contains(pred, i);
        let k = choose|k: int| 0 <= k < kept.len() && kept[k] == data[i];
        assert(kept[k].path@ == path);
        file_states::lemma_lookup(data, i);
        file_states::lemma_lookup(kept, k);
    }
    if file_states::has_path(kept, path) {
        let k = choose|k: int| 0 <= k < kept.len() && #[trigger] kept[k].path@ == path;
        data.lemma_filter_pred(pred, k);
        assert(kept.contains(kept[k]));
        data.lemma_filter_contains_rev(pred, kept[k]);
        let i = choose|i: int| 0 <= i < data.len() && data[i] == kept[k];
        assert(data[i].path@ == path);
    }
}

/// Asking for an entry of a directory is asking for its path.
pub proof fn lemma_entries_of_directory(
    states: FileStates<'_>,
    dir: RepoPath<'_>,
    name: RepoPathComponent<'_>,
    joined: RepoPathBuf,
    path: RepoPath<'_>,
    in_dir: Option<FileState>,
    by_path: Option<FileState>,
    below_in_dir: FileStates<'_>,
    below: FileStates<'_>,
)
    requires
        call_ensures(RepoPath::<'_>::join, (&dir, name), joined),
        path@ == joined@,
        call_ensures(FileStates::<'_>::get_at, (&states, dir, name), in_dir),
        call_ensures(FileStates::<'_>::get, (&states, path), by_path),
        call_ensures(FileStates::<'_>::prefixed_at, (&states, dir, name), below_in_dir),
        call_ensures(FileStates::<'_>::prefixed, (&states, path), below),
    ensures
        in_dir == by_path,
        below_in_dir@ == below@,
{
}

/// A path that was added is there, and the others that were there stay, in their order. A
/// path is there once.
pub proof fn lemma_path_added(
    paths: &mut PathSet,
    path: RepoPathBuf,
    is_new: bool,
    other: RepoPath<'_>,
    was_there: bool,
    is_there: bool,
    old_len: usize,
    new_len: usize,
)
    requires
        call_ensures(PathSet::contains, (&*old(paths), other), was_there),
        call_ensures(PathSet::len, (&*old(paths),), old_len),
        call_ensures(PathSet::insert, (paths, path), is_new),
        call_ensures(PathSet::contains, (&*final(paths), other), is_there),
        call_ensures(PathSet::len, (&*final(paths),), new_len),
    ensures
        is_there <==> was_there || other@ == path@,
        other@ == path@ ==> (is_new <==> !was_there),
        new_len == if is_new {
            old_len + 1
        } else {
            old_len as int
        },
        forall|i: int| 0 <= i < old_len ==> #[trigger] final(paths)@[i] == old(paths)@[i],
        is_new ==> final(paths)@[old_len as int] == path@,
{
    let before = old(paths)@;
    let after = final(paths)@;
    if before.contains(other@) {
        let i = choose|i: int| 0 <= i < before.len() && before[i] == other@;
        assert(after[i] == other@);
    }
    if is_new {
        assert(after[before.len() as int] == path@);
    }
    if after.contains(other@) {
        let i = choose|i: int| 0 <= i < after.len() && after[i] == other@;
        if i < before.len() {
            assert(before[i] == other@);
        }
    }
}

/// A set of paths starts empty.
pub proof fn lemma_no_paths(paths: PathSet, other: RepoPath<'_>, is_there: bool, is_empty: bool)
    requires
        call_ensures(PathSet::new, (), paths),
        call_ensures(PathSet::contains, (&paths, other), is_there),
        call_ensures(PathSet::is_empty, (&paths,), is_empty),
    ensures
        !is_there,
        is_empty,
{
}

/// All files can be forgotten, and none are known in the first place.
pub proof fn lemma_no_files(states: &mut FileStatesMap, new: FileStatesMap, all: FileStates<'_>)
    requires
        call_ensures(FileStatesMap::clear, (states,), ()),
        call_ensures(FileStatesMap::new, (), new),
        call_ensures(FileStatesMap::all, (&new,), all),
    ensures
        final(states)@.len() == 0,
        new@.len() == 0,
        all@.len() == 0,
{
}

/// Sorting loses nothing and adds nothing, and leaves the values in the order of their paths.
pub proof fn lemma_sorted_by_path<T: KeyedByPath>(data: &mut Vec<T>, i: int, j: int, x: T)
    requires
        call_ensures(file_states_map::sort_by_path::<T>, (data,), ()),
        0 <= i < j < final(data)@.len(),
    ensures
        final(data)@.len() == old(data)@.len(),
        final(data)@.contains(x) <==> old(data)@.contains(x),
        path_model::path_order(final(data)@[i].key(), final(data)@[j].key()) == Order::Less,
{
    final(data)@.to_multiset_ensures();
    old(data)@.to_multiset_ensures();
    assert(final(data)@.len() == final(data)@.to_multiset().len());
}

/// Stored entries are taken over in the order of their paths, and given back so.
pub proof fn lemma_entries_taken_over(
    entries: Vec<FileStateEntry>,
    is_sorted: bool,
    states: FileStatesMap,
    r: Vec<FileStateEntry>,
    entry: FileStateEntry,
)
    requires
        call_ensures(FileStatesMap::from_proto, (entries, is_sorted), states),
        call_ensures(FileStatesMap::to_proto, (&states,), r),
    ensures
        r@.len() == entries@.len(),
        r@.contains(entry) <==> entries@.contains(entry),
        is_sorted ==> r@ == entries@,
{
    r@.to_multiset_ensures();
    entries@.to_multiset_ensures();
    assert(r@.to_multiset() == entries@.to_multiset());
    assert(r@.contains(entry) <==> r@.to_multiset().count(entry) > 0);
    assert(entries@.contains(entry) <==> entries@.to_multiset().count(entry) > 0);
}

/// Stored entries are unique and sorted exactly if each comes behind all before it.
pub proof fn lemma_entries_in_order(data: Vec<FileStateEntry>, r: bool)
    requires
        forall|i: int|
            0 <= i < data@.len() ==> path_model::valid_path((#[trigger] data@[i]).path@)
                && data@[i].state is Some,
        call_ensures(
            file_states::is_file_state_entries_proto_unique_and_sorted,
            (&data,),
            r,
        ),
    ensures
        r <==> forall|i: int, j: int|
            0 <= i < j < data@.len() ==> path_model::path_order(
                (#[trigger] data@[i]).path@,
                (#[trigger] data@[j]).path@,
            ) == Order::Less,
{
    assert forall|i: int| 0 <= i < data@.len() implies file_states::valid_entry(
        #[trigger] data@[i],
    ) by {}
}

/// Sorted entries are known as they are, and sets list their paths.
pub proof fn lemma_entries_given<'a>(
    data: &'a [FileStateEntry],
    files: FileStates<'a>,
    len: usize,
    set: PathSet,
    i: usize,
    path: RepoPath<'_>,
    is_in: bool,
)
    requires
        call_ensures(FileStates::<'a>::from_sorted, (data,), files),
        call_ensures(FileStates::<'a>::len, (&files,), len),
        i < set@.len(),
        call_ensures(PathSet::path, (&set, i), path),
        call_ensures(PathSet::contains, (&set, path), is_in),
    ensures
        files@ == data@,
        len == data@.len(),
        is_in,
{
    assert(set@[i as int] == path@);
    assert(set@.contains(path@));
}

} // verus!
