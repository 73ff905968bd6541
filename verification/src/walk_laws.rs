//! What a whole walk through a working copy records.
//!
//! The laws speak of what the functions are called with and of what they return.

use vstd::prelude::*;

use crate::backend::MergedTreeValue;
use crate::backend::TreeEntry;
use crate::file_state::FileState;
use crate::file_states;
use crate::file_states::FileStates;
use crate::matchers::SnapshotMatcher;
use crate::path_model;
use crate::proto::FileStateEntry;
use crate::repo_path::RepoPath;
use crate::repo_path::RepoPathBuf;
use crate::snapshot::FileSnapshotter;
use crate::snapshot::UntrackedReason;
use crate::snapshot_output::SnapshotOutput;
use crate::snapshot_walk;
use crate::snapshot_walk::StoredFile;
use crate::snapshot_walk::WalkStep;
use crate::stored_value;
use crate::stored_value::StorePlan;

verus! {

/// What is found at a step stays listed.
proof fn lemma_step_listed(
    rules: FileSnapshotter<'_>,
    files: Seq<FileStateEntry>,
    steps: Seq<WalkStep>,
    k: int,
)
    requires
        0 <= k < steps.len(),
    ensures
        steps[k] matches WalkStep::Present { path, new_state, stored } ==> {
            let current = file_states::lookup(files, path@);
            let value = rules.new_value(current, new_state, stored);
            let state = snapshot_walk::recorded_state(current, value, new_state);
            &&& value matches Some(terms) ==> rules.tree_list(files, steps).contains((path@, terms))
            &&& current != Some(state) ==> rules.state_list(files, steps).contains((path@, state))
        },
        steps[k] matches WalkStep::Untracked { path, reason } ==> snapshot_walk::untracked_list(
            steps,
        ).contains((path@, reason)),
    decreases steps.len(),
{
    let before = steps.drop_last();
    let values = rules.tree_list(files, steps);
    let states = rules.state_list(files, steps);
    let untracked = snapshot_walk::untracked_list(steps);
    if k < before.len() {
        assert(before[k] == steps[k]);
        lemma_step_listed(rules, files, before, k);
        lemma_list_grows(rules.tree_list(files, before), values);
        lemma_list_grows(rules.state_list(files, before), states);
        lemma_list_grows(snapshot_walk::untracked_list(before), untracked);
    } else {
        if let WalkStep::Present { path, new_state, stored } = steps[k] {
            let current = file_states::lookup(files, path@);
            let value = rules.new_value(current, new_state, stored);
            let state = snapshot_walk::recorded_state(current, value, new_state);
            if let Some(terms) = value {
                assert(values[values.len() - 1] == (path@, terms));
            }
            if current != Some(state) {
                assert(states[states.len() - 1] == (path@, state));
            }
        }
        if let WalkStep::Untracked { path, reason } = steps[k] {
            assert(untracked[untracked.len() - 1] == (path@, reason));
        }
    }
}

/// A list that has grown by one at most holds what it held.
proof fn lemma_list_grows<T>(a: Seq<T>, b: Seq<T>)
    requires
        b == a || b.len() == a.len() + 1 && b.drop_last() =~= a,
    ensures
        forall|x: T| a.contains(x) ==> #[trigger] b.contains(x),
{
    assert forall|x: T| a.contains(x) implies #[trigger] b.contains(x) by {
        let i = choose|i: int| 0 <= i < a.len() && a[i] == x;
        if b != a {
            assert(b[i] == b.drop_last()[i]);
        }
    }
}

/// What is listed was found at a step.
proof fn lemma_listed_at_step(
    rules: FileSnapshotter<'_>,
    files: Seq<FileStateEntry>,
    steps: Seq<WalkStep>,
    path: Seq<char>,
    terms: Seq<Option<TreeEntry>>,
    reason: UntrackedReason,
)
    ensures
        rules.tree_list(files, steps).contains((path, terms)) ==> exists|k: int|
            0 <= k < steps.len() && (#[trigger] steps[k] matches WalkStep::Present {
                path: at,
                stored: Some(_),
                ..
            } && at@ == path),
        snapshot_walk::untracked_list(steps).contains((path, reason)) ==> exists|k: int|
            0 <= k < steps.len() && (#[trigger] steps[k] matches WalkStep::Untracked {
                path: at,
                reason: why,
            } && at@ == path && why == reason),
    decreases steps.len(),
{
    if steps.len() > 0 {
        let before = steps.drop_last();
        let n = before.len() as int;
        lemma_listed_at_step(rules, files, before, path, terms, reason);
        let values = rules.tree_list(files, steps);
        let old_values = rules.tree_list(files, before);
        assert(steps[n] == steps.last());
        if values.contains((path, terms)) {
            let i = choose|i: int| 0 <= i < values.len() && values[i] == (path, terms);
            if i < old_values.len() {
                assert(old_values[i] == values[i]);
                assert(old_values.contains((path, terms)));
                let k = choose|k: int|
                    0 <= k < before.len() && (#[trigger] before[k] matches WalkStep::Present {
                        path: at,
                        stored: Some(_),
                        ..
                    } && at@ == path);
                assert(steps[k] == before[k]);
            }
        }
        let untracked = snapshot_walk::untracked_list(steps);
        let old_untracked = snapshot_walk::untracked_list(before);
        if untracked.contains((path, reason)) {
            let i = choose|i: int| 0 <= i < untracked.len() && untracked[i] == (path, reason);
            if i < old_untracked.len() {
                assert(old_untracked[i] == untracked[i]);
                assert(old_untracked.contains((path, reason)));
                let k = choose|k: int|
                    0 <= k < before.len() && (#[trigger] before[k] matches WalkStep::Untracked {
                        path: at,
                        reason: why,
                    } && at@ == path && why == reason);
                assert(steps[k] == before[k]);
            }
        }
    }
}

/// A file that is there and may have changed gets the value under which it was stored, if
/// that is not what the tree has. It gets a new state if that is not the recorded one.
pub proof fn lemma_present_file_recorded(
    rules: FileSnapshotter<'_>,
    files: FileStates<'_>,
    steps: Vec<WalkStep>,
    r: Option<SnapshotOutput>,
    k: int,
    path: RepoPath<'_>,
    new_state: FileState,
    stored: StoredFile,
    current: Option<FileState>,
    plan: StorePlan,
    value: MergedTreeValue,
)
    requires
        call_ensures(FileSnapshotter::<'_>::record_walk, (&rules, files, steps), r),
        r is Some,
        0 <= k < steps@.len(),
        steps@[k] matches WalkStep::Present { path: at, new_state: state, stored: Some(file) }
            && at@ == path@ && state == new_state && file == stored,
        call_ensures(FileStates::<'_>::get, (&files, path), current),
        call_ensures(
            stored_value::plan_store,
            (rules.symlink_support, &new_state, &stored.current_value, current),
            plan,
        ),
        call_ensures(
            stored_value::value_after_store,
            (plan, rules.exec_policy, &stored.current_value, stored.contents),
            value,
        ),
    ensures
        value@ != stored.current_value@ ==> exists|i: int|
            0 <= i < r->0.tree_entries@.len() && (#[trigger] r->0.tree_entries@[i]).0@ == path@
                && r->0.tree_entries@[i].1@ == value@,
        current is None || current->0.file_type != new_state.file_type || current->0.mtime
            != new_state.mtime || current->0.size != new_state.size ==> exists|i: int|
            0 <= i < r->0.file_states@.len() && (#[trigger] r->0.file_states@[i]).0@ == path@
                && r->0.file_states@[i].1.file_type == new_state.file_type
                && r->0.file_states@[i].1.mtime == new_state.mtime && r->0.file_states@[i].1.size
                == new_state.size,
{
    let output = r->0;
    lemma_step_listed(rules, files@, steps@, k);
    let found = rules.new_value(current, new_state, Some(stored));
    let state = snapshot_walk::recorded_state(current, found, new_state);
    if value@ != stored.current_value@ {
        let views = snapshot_walk::term_views(output.tree_entries@);
        assert(views.contains((path@, value@)));
        let i = choose|i: int| 0 <= i < views.len() && views[i] == (path@, value@);
        assert(output.tree_entries@[i].0@ == path@);
    }
    if current != Some(state) {
        let views = snapshot_walk::path_views(output.file_states@);
        assert(views.contains((path@, state)));
        let i = choose|i: int| 0 <= i < views.len() && views[i] == (path@, state);
        assert(output.file_states@[i].0@ == path@);
    }
}

/// Only files that are there and were stored get new values. Only files that the walk reports
/// are untracked, each for the reason that it gives.
pub proof fn lemma_only_found_files_recorded(
    rules: FileSnapshotter<'_>,
    files: FileStates<'_>,
    steps: Vec<WalkStep>,
    r: Option<SnapshotOutput>,
    i: int,
    j: int,
)
    requires
        call_ensures(FileSnapshotter::<'_>::record_walk, (&rules, files, steps), r),
        r is Some,
        0 <= i < r->0.tree_entries@.len(),
        0 <= j < r->0.untracked_paths@.len(),
    ensures
        exists|k: int|
            0 <= k < steps@.len() && (#[trigger] steps@[k] matches WalkStep::Present {
                path: at,
                stored: Some(_),
                ..
            } && at@ == r->0.tree_entries@[i].0@),
        exists|k: int|
            0 <= k < steps@.len() && (#[trigger] steps@[k] matches WalkStep::Untracked {
                path: at,
                reason: why,
            } && at@ == r->0.untracked_paths@[j].0@ && why == r->0.untracked_paths@[j].1),
{
    let (path, value) = r->0.tree_entries@[i];
    let values = snapshot_walk::term_views(r->0.tree_entries@);
    assert(values[i] == (path@, value@));
    assert(values.contains((path@, value@)));
    let (at, reason) = r->0.untracked_paths@[j];
    let untracked = snapshot_walk::path_views(r->0.untracked_paths@);
    assert(untracked[j] == (at@, reason));
    assert(untracked.contains((at@, reason)));
    lemma_listed_at_step(rules, files@, steps@, path@, value@, reason);
    lemma_listed_at_step(rules, files@, steps@, at@, value@, reason);
}

/// A file that the walk reports as untracked is told with the reason, one that is gone is
/// recorded as such, and of those that are missing the ones that are part of the snapshot
/// are.
pub proof fn lemma_other_files_recorded(
    rules: FileSnapshotter<'_>,
    files: FileStates<'_>,
    steps: Vec<WalkStep>,
    r: Option<SnapshotOutput>,
    k: int,
    m: int,
    missing: RepoPath<'_>,
    is_forced: bool,
    is_part: bool,
)
    requires
        call_ensures(FileSnapshotter::<'_>::record_walk, (&rules, files, steps), r),
        r is Some,
        0 <= k < steps@.len(),
        steps@[k] matches WalkStep::Missing { paths, forced } ==> {
            &&& 0 <= m < paths@.len()
            &&& missing@ == paths@[m]@
            &&& is_forced == forced@[m]
        },
        call_ensures(
            SnapshotMatcher::<'_>::matches,
            (&rules.matcher, missing, is_forced),
            is_part,
        ),
    ensures
        steps@[k] matches WalkStep::Untracked { path, reason } ==> exists|i: int|
            0 <= i < r->0.untracked_paths@.len() && (#[trigger] r->0.untracked_paths@[i]).0@
                == path@ && r->0.untracked_paths@[i].1 == reason,
        steps@[k] matches WalkStep::Gone { path } ==> r->0.deleted_files@.contains(path@),
        steps@[k] is Missing && is_part ==> r->0.deleted_files@.contains(missing@),
{
    lemma_step_listed(rules, files@, steps@, k);
    if let WalkStep::Untracked { path, reason } = steps@[k] {
        let views = snapshot_walk::path_views(r->0.untracked_paths@);
        assert(views.contains((path@, reason)));
        let i = choose|i: int| 0 <= i < views.len() && views[i] == (path@, reason);
        assert(r->0.untracked_paths@[i].0@ == path@);
    }
    if let WalkStep::Gone { path } = steps@[k] {
        assert(steps@[k].removes(rules.matcher, path@));
        assert(snapshot_walk::removed(rules.matcher, steps@, path@));
    }
    if steps@[k] is Missing && is_part {
        assert(steps@[k].removes(rules.matcher, missing@));
        assert(snapshot_walk::removed(rules.matcher, steps@, missing@));
    }
}

/// A file is recorded as gone only if the walk says that it is, or that it is missing.
pub proof fn lemma_only_missing_files_gone(
    rules: FileSnapshotter<'_>,
    files: FileStates<'_>,
    steps: Vec<WalkStep>,
    r: Option<SnapshotOutput>,
    path: Seq<char>,
)
    requires
        call_ensures(FileSnapshotter::<'_>::record_walk, (&rules, files, steps), r),
        r is Some,
        r->0.deleted_files@.contains(path),
    ensures
        exists|k: int|
            0 <= k < steps@.len() && match #[trigger] steps@[k] {
                WalkStep::Gone { path: at } => at@ == path,
                WalkStep::Missing { paths, .. } => paths_hold(paths@, path),
                _ => false,
            },
{
    assert(snapshot_walk::removed(rules.matcher, steps@, path));
    let k = choose|k: int|
        0 <= k < steps@.len() && (#[trigger] steps@[k]).removes(rules.matcher, path);
    if let WalkStep::Missing { paths, forced } = steps@[k] {
        assert(paths_hold(paths@, path));
    }
    assert(match steps@[k] {
        WalkStep::Gone { path: at } => at@ == path,
        WalkStep::Missing { paths, .. } => paths_hold(paths@, path),
        _ => false,
    });
}

/// A path is among some.
pub open spec fn paths_hold(paths: Seq<RepoPathBuf>, path: Seq<char>) -> bool {
    exists|i: int| 0 <= i < paths.len() && (#[trigger] paths[i])@ == path
}

/// Whether a step is about a path.
pub open spec fn is_about(step: WalkStep, path: Seq<char>) -> bool {
    match step {
        WalkStep::Untracked { path: at, .. } => at@ == path,
        WalkStep::Present { path: at, .. } => at@ == path,
        WalkStep::Gone { path: at } => at@ == path,
        WalkStep::Missing { paths, .. } => paths_hold(paths@, path),
    }
}

/// A walk goes on with a file that it has not come across. A file that is there has to be
/// stored as planned exactly if it may have changed. A file that is untracked is not tracked.
pub proof fn lemma_walk_goes_on(
    rules: FileSnapshotter<'_>,
    files: FileStates<'_>,
    steps: Vec<WalkStep>,
    r: Option<SnapshotOutput>,
    longer: Vec<WalkStep>,
    s: Option<SnapshotOutput>,
    path: RepoPath<'_>,
    current: Option<FileState>,
    new_state: FileState,
    clean: bool,
    stored: StoredFile,
    plan: StorePlan,
    is_stored: bool,
)
    requires
        call_ensures(FileSnapshotter::<'_>::record_walk, (&rules, files, steps), r),
        call_ensures(FileSnapshotter::<'_>::record_walk, (&rules, files, longer), s),
        longer@.len() == steps@.len() + 1,
        longer@.drop_last() == steps@,
        path_model::valid_path(path@),
        call_ensures(FileStates::<'_>::get, (&files, path), current),
        call_ensures(
            stored_value::is_known_clean,
            (current, &new_state, rules.own_mtime),
            clean,
        ),
        !(new_state.file_type is GitSubmodule),
        call_ensures(
            stored_value::plan_store,
            (rules.symlink_support, &new_state, &stored.current_value, current),
            plan,
        ),
        call_ensures(
            stored_value::contents_fit,
            (plan, &stored.current_value, &stored.contents),
            is_stored,
        ),
        forall|i: int| 0 <= i < steps@.len() ==> !is_about(#[trigger] steps@[i], path@),
    ensures
        r is None ==> s is None,
        longer@.last() matches WalkStep::Untracked { path: at, .. } ==> (at@ == path@ ==> (s is Some
            <==> r is Some && current is None)),
        longer@.last() matches WalkStep::Gone { path: at } ==> (at@ == path@ ==> (s is Some
            <==> r is Some)),
        longer@.last() matches WalkStep::Present { path: at, new_state: state, stored: kept } ==> (
        at@ == path@ && state == new_state ==> {
            &&& kept is None ==> (s is Some <==> r is Some && clean)
            &&& kept == Some(stored) ==> (s is Some <==> r is Some && !clean && is_stored)
        }),
{
    lemma_not_come_across(rules.matcher, steps@, path@);
}

proof fn lemma_not_come_across(
    matcher: SnapshotMatcher<'_>,
    steps: Seq<WalkStep>,
    path: Seq<char>,
)
    requires
        forall|i: int| 0 <= i < steps.len() ==> !is_about(#[trigger] steps[i], path),
    ensures
        !snapshot_walk::found(steps, path),
        !snapshot_walk::removed(matcher, steps, path),
{
    if snapshot_walk::found(steps, path) {
        let i = choose|i: int| 0 <= i < steps.len() && (#[trigger] steps[i]).finds(path);
        assert(is_about(steps[i], path));
    }
    if snapshot_walk::removed(matcher, steps, path) {
        let i = choose|i: int| 0 <= i < steps.len() && (#[trigger] steps[i]).removes(matcher, path);
        if let WalkStep::Missing { paths, forced } = steps[i] {
            assert(paths_hold(paths@, path));
        }
        assert(is_about(steps[i], path));
    }
}

/// A walk does not come across a file that is there twice, and nothing is recorded of one
/// that does.
pub proof fn lemma_file_found_once(
    rules: FileSnapshotter<'_>,
    files: FileStates<'_>,
    steps: Vec<WalkStep>,
    r: Option<SnapshotOutput>,
    i: int,
    path: Seq<char>,
)
    requires
        call_ensures(FileSnapshotter::<'_>::record_walk, (&rules, files, steps), r),
        0 <= i < steps@.len() - 1,
        steps@[i] is Present || steps@[i] is Untracked,
        is_about(steps@[i], path),
        steps@.last() is Present || steps@.last() is Untracked || steps@.last() is Gone,
        is_about(steps@.last(), path),
    ensures
        r is None,
{
    let before = steps@.drop_last();
    assert(before[i] == steps@[i]);
    assert(before[i].finds(path));
    assert(snapshot_walk::found(before, path));
}

/// Nothing was found before the first step.
pub proof fn lemma_walk_starts(
    rules: FileSnapshotter<'_>,
    files: FileStates<'_>,
    steps: Vec<WalkStep>,
    r: Option<SnapshotOutput>,
)
    requires
        steps@.len() == 0,
        call_ensures(FileSnapshotter::<'_>::record_walk, (&rules, files, steps), r),
    ensures
        r is Some,
        r->0.tree_entries@.len() == 0,
        r->0.file_states@.len() == 0,
        r->0.untracked_paths@.len() == 0,
        forall|path: Seq<char>| !#[trigger] r->0.deleted_files@.contains(path),
{
    assert(snapshot_walk::term_views(r->0.tree_entries@).len() == 0);
    assert(snapshot_walk::path_views(r->0.file_states@).len() == 0);
    assert(snapshot_walk::path_views(r->0.untracked_paths@).len() == 0);
}

} // verus!
