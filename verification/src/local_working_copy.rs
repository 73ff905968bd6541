//! A working copy on the local disk, and what may be done to it while it is locked.

use vstd::prelude::*;

use crate::backend::MergedTree;
use crate::backend::MergedTreeValue;
use crate::checkout;
use crate::checkout::CheckoutStats;
use crate::checkout::TreeUpdate;
use crate::file_states::FileStates;
use crate::file_states_map;
use crate::fs_path;
use crate::fs_path::FsPath;
use crate::proto::CheckoutProto;
use crate::proto::TreeStateProto;
use crate::proto::WatchmanClock;
use crate::repo_path::RepoPathBuf;
use crate::reset;
use crate::settings::TreeStateSettings;
use crate::snapshot_output::SnapshotOutput;
use crate::tree_state;
use crate::tree_state::DiskSupport;
use crate::tree_state::SnapshotStats;
use crate::tree_state::TreeState;

verus! {

/// Working copy state stored in "checkout" file.
#[derive(Debug)]
pub struct CheckoutState {
    pub operation_id: Vec<u8>,
    pub workspace_name: String,
}

/// The workspace of a stored checkout. Old working copies do not name it.
pub open spec fn stored_workspace(name: Seq<char>) -> Seq<char> {
    if name.len() == 0 {
        "default"@
    } else {
        name
    }
}

impl CheckoutState {
    /// Reads the stored form.
    pub fn from_proto(proto: CheckoutProto) -> (r: CheckoutState)
        ensures
            r.operation_id == proto.operation_id,
            r.workspace_name@ == stored_workspace(proto.workspace_name@),
    {
        CheckoutState {
            operation_id: proto.operation_id,
            workspace_name: if proto.workspace_name.as_str().is_empty() {
                // For compatibility with old working copies.
                "default".to_string()
            } else {
                proto.workspace_name
            },
        }
    }

    /// What is to be saved of this.
    pub fn to_proto(&self) -> (r: CheckoutProto)
        ensures
            r.operation_id@ == self.operation_id@,
            r.workspace_name@ == self.workspace_name@,
    {
        CheckoutProto {
            operation_id: fs_path::copy_bytes(&self.operation_id),
            workspace_name: self.workspace_name.clone(),
        }
    }
}

/// A workspace with a name keeps it when it is stored.
pub proof fn lemma_stored_workspace(name: Seq<char>)
    requires
        name.len() > 0,
    ensures
        stored_workspace(name) == name,
{
}

/// A working copy on the local disk.
pub struct LocalWorkingCopy {
    pub working_copy_path: FsPath,
    pub state_path: FsPath,
    pub checkout_state: CheckoutState,
    /// The state of the files, once it was read.
    pub tree_state: Option<TreeState>,
    pub tree_state_settings: TreeStateSettings,
}

impl LocalWorkingCopy {
    pub fn name() -> (r: &'static str)
        ensures
            r@ == "local"@,
    {
        "local"
    }

    pub fn workspace_name(&self) -> (r: &str)
        ensures
            r@ == self.checkout_state.workspace_name@,
    {
        self.checkout_state.workspace_name.as_str()
    }

    pub fn operation_id(&self) -> (r: &Vec<u8>)
        ensures
            *r == self.checkout_state.operation_id,
    {
        &self.checkout_state.operation_id
    }

    pub fn state_path(&self) -> (r: &FsPath)
        ensures
            *r == self.state_path,
    {
        &self.state_path
    }

    /// What is checked out, once the state of the files was read.
    pub fn tree(&self) -> (r: Option<&MergedTree>)
        ensures
            match r {
                Some(tree) => self.tree_state matches Some(state) && tree@ == state@.tree,
                None => self.tree_state is None,
            },
    {
        match &self.tree_state {
            Some(state) => Some(state.current_tree()),
            None => None,
        }
    }

    /// The sparse patterns, once the state of the files was read.
    pub fn sparse_patterns(&self) -> (r: Option<&Vec<RepoPathBuf>>)
        ensures
            match r {
                Some(patterns) => self.tree_state matches Some(state) && checkout::path_list(
                    patterns@,
                ) == state@.sparse_patterns,
                None => self.tree_state is None,
            },
    {
        match &self.tree_state {
            Some(state) => Some(state.sparse_patterns()),
            None => None,
        }
    }

    /// The tracked files, once their state was read.
    pub fn file_states(&self) -> (r: Option<FileStates<'_>>)
        ensures
            match r {
                Some(files) => self.tree_state matches Some(state) && files@
                    == state@.file_states,
                None => self.tree_state is None,
            },
    {
        match &self.tree_state {
            Some(state) => Some(state.file_states()),
            None => None,
        }
    }

    /// Initializes a new working copy at `working_copy_path`, and tells what is to be
    /// saved in the `state_path` directory. The working copy will have the empty tree
    /// checked out.
    pub fn init(
        empty_tree: MergedTree,
        working_copy_path: FsPath,
        state_path: FsPath,
        operation_id: Vec<u8>,
        workspace_name: String,
        tree_state_settings: TreeStateSettings,
        support: DiskSupport,
    ) -> (r: (LocalWorkingCopy, CheckoutProto, TreeStateProto))
        requires
            empty_tree@.tree_ids.len() % 2 == 1,
        ensures
            r.0.working_copy_path == working_copy_path,
            r.0.state_path == state_path,
            r.0.checkout_state.operation_id == operation_id,
            r.0.checkout_state.workspace_name == workspace_name,
            r.0.tree_state_settings == tree_state_settings,
            r.1.operation_id@ == operation_id@,
            r.1.workspace_name@ == workspace_name@,
            r.0.tree_state matches Some(state) && {
                &&& state.wf()
                &&& state@ == tree_state::initial_facts(
                    empty_tree@,
                    working_copy_path@,
                    state_path@,
                    tree_state_settings,
                    support,
                )
                &&& tree_state::stores(state@, r.2)
            },
    {
        let checkout_state = CheckoutState { operation_id, workspace_name };
        let checkout_proto = checkout_state.to_proto();
        let (tree_state, tree_state_proto) = TreeState::init(
            empty_tree,
            working_copy_path.duplicate(),
            state_path.duplicate(),
            &tree_state_settings,
            support,
        );
        (
            LocalWorkingCopy {
                working_copy_path,
                state_path,
                checkout_state,
                tree_state: Some(tree_state),
                tree_state_settings,
            },
            checkout_proto,
            tree_state_proto,
        )
    }

    /// A working copy whose stored checkout was read. The state of its files is not
    /// known yet.
    pub fn load(
        working_copy_path: FsPath,
        state_path: FsPath,
        checkout: CheckoutProto,
        tree_state_settings: TreeStateSettings,
    ) -> (r: LocalWorkingCopy)
        ensures
            r.working_copy_path == working_copy_path,
            r.state_path == state_path,
            r.checkout_state.operation_id == checkout.operation_id,
            r.checkout_state.workspace_name@ == stored_workspace(checkout.workspace_name@),
            r.tree_state is None,
            r.tree_state_settings == tree_state_settings,
    {
        LocalWorkingCopy {
            working_copy_path,
            state_path,
            checkout_state: CheckoutState::from_proto(checkout),
            tree_state: None,
            tree_state_settings,
        }
    }
}

/// Creates and loads working copies on the local disk.
#[derive(Clone, Copy, Debug, PartialEq, Eq, Structural)]
pub struct LocalWorkingCopyFactory {}

impl LocalWorkingCopyFactory {
    /// See [`LocalWorkingCopy::init`].
    pub fn init_working_copy(
        &self,
        empty_tree: MergedTree,
        working_copy_path: FsPath,
        state_path: FsPath,
        operation_id: Vec<u8>,
        workspace_name: String,
        tree_state_settings: TreeStateSettings,
        support: DiskSupport,
    ) -> (r: (LocalWorkingCopy, CheckoutProto, TreeStateProto))
        requires
            empty_tree@.tree_ids.len() % 2 == 1,
        ensures
            r.0.working_copy_path == working_copy_path,
            r.0.state_path == state_path,
            r.0.checkout_state.operation_id == operation_id,
            r.0.checkout_state.workspace_name == workspace_name,
            r.0.tree_state_settings == tree_state_settings,
            r.1.operation_id@ == operation_id@,
            r.1.workspace_name@ == workspace_name@,
            r.0.tree_state matches Some(state) && {
                &&& state.wf()
                &&& state@ == tree_state::initial_facts(
                    empty_tree@,
                    working_copy_path@,
                    state_path@,
                    tree_state_settings,
                    support,
                )
                &&& tree_state::stores(state@, r.2)
            },
    {
        LocalWorkingCopy::init(
            empty_tree,
            working_copy_path,
            state_path,
            operation_id,
            workspace_name,
            tree_state_settings,
            support,
        )
    }

    /// See [`LocalWorkingCopy::load`].
    pub fn load_working_copy(
        &self,
        working_copy_path: FsPath,
        state_path: FsPath,
        checkout: CheckoutProto,
        tree_state_settings: TreeStateSettings,
    ) -> (r: LocalWorkingCopy)
        ensures
            r.working_copy_path == working_copy_path,
            r.state_path == state_path,
            r.checkout_state.operation_id == checkout.operation_id,
            r.checkout_state.workspace_name@ == stored_workspace(checkout.workspace_name@),
            r.tree_state is None,
            r.tree_state_settings == tree_state_settings,
    {
        LocalWorkingCopy::load(working_copy_path, state_path, checkout, tree_state_settings)
    }
}

/// A working copy that's locked on disk.
pub struct LockedLocalWorkingCopy {
    pub working_copy_path: FsPath,
    pub state_path: FsPath,
    pub checkout_state: CheckoutState,
    pub tree_state: TreeState,
    pub tree_state_settings: TreeStateSettings,
    pub old_operation_id: Vec<u8>,
    pub old_tree: MergedTree,
    /// Whether the state of the files has to be saved.
    pub tree_state_dirty: bool,
    pub new_workspace_name: Option<String>,
}

/// What is left to do when a working copy is no longer to be changed.
pub struct FinishedWorkingCopy {
    pub wc: LocalWorkingCopy,
    /// Save the state of the files.
    pub save_tree_state: bool,
    /// Save what is checked out.
    pub save_checkout: bool,
}

impl LockedLocalWorkingCopy {
    /// The tree has not changed unless the state of the files has to be saved.
    pub open spec fn wf(&self) -> bool {
        &&& self.tree_state.wf()
        &&& self.old_operation_id@ == self.checkout_state.operation_id@
        &&& self.tree_state_dirty || self.old_tree@ == self.tree_state@.tree
    }

    /// Nothing but the state of the files, and whether it has to be saved, differs.
    pub open spec fn same_frame(&self, other: LockedLocalWorkingCopy) -> bool {
        &&& self.working_copy_path == other.working_copy_path
        &&& self.state_path == other.state_path
        &&& self.checkout_state == other.checkout_state
        &&& self.tree_state_settings == other.tree_state_settings
        &&& self.old_operation_id == other.old_operation_id
        &&& self.old_tree == other.old_tree
        &&& self.new_workspace_name == other.new_workspace_name
    }

    /// Starts to change a working copy whose state was read after it was locked.
    pub fn start_mutation(wc: LocalWorkingCopy, tree_state: TreeState) -> (r:
        LockedLocalWorkingCopy)
        requires
            tree_state.wf(),
        ensures
            r.wf(),
            r.working_copy_path == wc.working_copy_path,
            r.state_path == wc.state_path,
            r.checkout_state == wc.checkout_state,
            r.tree_state == tree_state,
            r.tree_state_settings == wc.tree_state_settings,
            r.old_operation_id@ == wc.checkout_state.operation_id@,
            r.old_tree@ == tree_state@.tree,
            !r.tree_state_dirty,
            r.new_workspace_name is None,
    {
        let old_operation_id = fs_path::copy_bytes(&wc.checkout_state.operation_id);
        let old_tree = tree_state.current_tree().duplicate();
        LockedLocalWorkingCopy {
            working_copy_path: wc.working_copy_path,
            state_path: wc.state_path,
            checkout_state: wc.checkout_state,
            tree_state,
            tree_state_settings: wc.tree_state_settings,
            old_operation_id,
            old_tree,
            tree_state_dirty: false,
            new_workspace_name: None,
        }
    }

    pub fn old_operation_id(&self) -> (r: &Vec<u8>)
        ensures
            *r == self.old_operation_id,
    {
        &self.old_operation_id
    }

    pub fn old_tree(&self) -> (r: &MergedTree)
        ensures
            *r == self.old_tree,
    {
        &self.old_tree
    }

    /// Finishes a snapshot. See [`TreeState::finish_snapshot`].
    pub fn finish_snapshot(
        &mut self,
        output: SnapshotOutput,
        new_tree: MergedTree,
        watchman_clock: Option<WatchmanClock>,
    ) -> (r: SnapshotStats)
        requires
            old(self).wf(),
            output.wf(),
            new_tree@.tree_ids.len() % 2 == 1,
        ensures
            final(self).wf(),
            final(self).same_frame(*old(self)),
            tree_state::snapshotted(
                old(self).tree_state@,
                final(self).tree_state@,
                output,
                new_tree@,
                watchman_clock,
            ),
            final(self).tree_state_dirty == (old(self).tree_state_dirty
                || tree_state::dirty_after_snapshot(old(self).tree_state@, output, new_tree@)),
            tree_state::sorted_by_path(r.untracked_paths@, output.untracked_paths@),
    {
        let (is_dirty, stats) = self.tree_state.finish_snapshot(output, new_tree, watchman_clock);
        if is_dirty {
            self.tree_state_dirty = true;
        }
        stats
    }

    /// Finishes a snapshot that has no files to look at.
    pub fn skip_snapshot(&mut self, watchman_clock: Option<WatchmanClock>) -> (r: SnapshotStats)
        requires
            old(self).wf(),
        ensures
            final(self).wf(),
            final(self).same_frame(*old(self)),
            final(self).tree_state@ == (tree_state::TreeStateFacts {
                watchman_clock: tree_state::clock_bytes(watchman_clock),
                ..old(self).tree_state@
            }),
            final(self).tree_state_dirty == (old(self).tree_state_dirty || !(old(
                self,
            ).tree_state@.fsmonitor_settings is Disabled)),
            r.untracked_paths@.len() == 0,
    {
        let (is_dirty, stats) = self.tree_state.skip_snapshot(watchman_clock);
        if is_dirty {
            self.tree_state_dirty = true;
        }
        stats
    }

    /// Whether files have to be updated for a tree to be checked out.
    pub fn needs_check_out(&self, new_tree: &MergedTree) -> (r: bool)
        ensures
            r == (self.tree_state@.tree != new_tree@),
    {
        !self.tree_state.current_tree().same_as(new_tree)
    }

    /// Takes over that a tree was checked out. See [`TreeState::check_out`].
    pub fn check_out(&mut self, new_tree: &MergedTree, update: TreeUpdate, resort: bool) -> (r:
        CheckoutStats)
        requires
            old(self).wf(),
            new_tree@.tree_ids.len() % 2 == 1,
            update.wf(),
            resort || file_states_map::sorted_changes(update.changed_file_states@),
        ensures
            final(self).wf(),
            final(self).same_frame(*old(self)),
            tree_state::checked_out(
                old(self).tree_state@,
                final(self).tree_state@,
                new_tree@,
                update,
            ),
            final(self).tree_state_dirty,
            r == update.stats,
    {
        let stats = self.tree_state.check_out(new_tree, update, resort);
        self.tree_state_dirty = true;
        stats
    }

    /// Remembers a new name for the workspace.
    pub fn rename_workspace(&mut self, new_name: String)
        requires
            old(self).wf(),
        ensures
            final(self).wf(),
            *final(self) == (LockedLocalWorkingCopy {
                new_workspace_name: Some(new_name),
                ..*old(self)
            }),
    {
        self.new_workspace_name = Some(new_name);
    }

    /// Takes over another tree without touching files. See [`TreeState::reset`].
    pub fn reset(&mut self, new_tree: &MergedTree, diff: Vec<(RepoPathBuf, MergedTreeValue)>)
        requires
            old(self).wf(),
            new_tree@.tree_ids.len() % 2 == 1,
            reset::file_diff(diff@),
        ensures
            final(self).wf(),
            final(self).same_frame(*old(self)),
            tree_state::was_reset(
                old(self).tree_state@,
                final(self).tree_state@,
                old(self).tree_state@.file_states,
                new_tree@,
                diff@,
            ),
            final(self).tree_state_dirty,
    {
        self.tree_state.reset(new_tree, diff);
        self.tree_state_dirty = true;
    }

    /// Takes over another tree, and forgets what is known of the files. See
    /// [`TreeState::recover`].
    pub fn recover(
        &mut self,
        empty_tree: MergedTree,
        new_tree: &MergedTree,
        diff: Vec<(RepoPathBuf, MergedTreeValue)>,
    )
        requires
            old(self).wf(),
            empty_tree@.tree_ids.len() % 2 == 1,
            new_tree@.tree_ids.len() % 2 == 1,
            reset::file_diff(diff@),
        ensures
            final(self).wf(),
            final(self).same_frame(*old(self)),
            tree_state::was_reset(
                old(self).tree_state@,
                final(self).tree_state@,
                Seq::empty(),
                new_tree@,
                diff@,
            ),
            final(self).tree_state_dirty,
    {
        self.tree_state.recover(empty_tree, new_tree, diff);
        self.tree_state_dirty = true;
    }

    /// Takes over what an update of the files did that was left half way. The state is
    /// not saved on that account.
    pub fn apply_update(&mut self, update: TreeUpdate, resort: bool)
        requires
            old(self).wf(),
            update.wf(),
            resort || file_states_map::sorted_changes(update.changed_file_states@),
        ensures
            final(self).wf(),
            final(self).same_frame(*old(self)),
            final(self).tree_state_dirty == old(self).tree_state_dirty,
            final(self).tree_state@ == (tree_state::TreeStateFacts {
                file_states: final(self).tree_state@.file_states,
                ..old(self).tree_state@
            }),
            tree_state::merged_files(
                old(self).tree_state@.file_states,
                final(self).tree_state@.file_states,
                update.changed_file_states@,
                update.deleted_files@,
            ),
    {
        self.tree_state.apply_update(update, resort);
    }

    /// Takes over that the sparse patterns were replaced. See
    /// [`TreeState::set_sparse_patterns`].
    pub fn set_sparse_patterns(
        &mut self,
        new_sparse_patterns: Vec<RepoPathBuf>,
        added: TreeUpdate,
        removed: TreeUpdate,
        resort: bool,
    ) -> (r: CheckoutStats)
        requires
            old(self).wf(),
            tree_state::valid_paths(checkout::path_list(new_sparse_patterns@)),
            added.wf(),
            resort || file_states_map::sorted_changes(added.changed_file_states@),
            added.stats.updated_files == 0,
            added.stats.removed_files == 0,
            removed.wf(),
            resort || file_states_map::sorted_changes(removed.changed_file_states@),
            removed.stats.updated_files == 0,
            removed.stats.added_files == 0,
            removed.stats.skipped_files == 0,
        ensures
            final(self).wf(),
            final(self).same_frame(*old(self)),
            tree_state::sparse_patterns_replaced(
                old(self).tree_state@,
                final(self).tree_state@,
                checkout::path_list(new_sparse_patterns@),
                added,
                removed,
            ),
            final(self).tree_state_dirty,
            r == (CheckoutStats {
                updated_files: 0,
                added_files: added.stats.added_files,
                removed_files: removed.stats.removed_files,
                skipped_files: added.stats.skipped_files,
            }),
    {
        let stats = self.tree_state.set_sparse_patterns(
            new_sparse_patterns,
            added,
            removed,
            resort,
        );
        self.tree_state_dirty = true;
        stats
    }

    /// Forgets what is known from Watchman.
    pub fn reset_watchman(&mut self)
        requires
            old(self).wf(),
        ensures
            final(self).wf(),
            final(self).same_frame(*old(self)),
            final(self).tree_state@ == (tree_state::TreeStateFacts {
                watchman_clock: None,
                ..old(self).tree_state@
            }),
            final(self).tree_state_dirty,
    {
        self.tree_state.reset_watchman();
        self.tree_state_dirty = true;
    }

    /// Ends the changes, and tells what has to be saved: the state of the files if it
    /// has changed, and what is checked out if that is another operation or workspace
    /// name.
    pub fn finish(self, operation_id: Vec<u8>) -> (r: FinishedWorkingCopy)
        requires
            self.wf(),
        ensures
            r.save_tree_state == self.tree_state_dirty,
            r.save_tree_state || self.old_tree@ == self.tree_state@.tree,
            r.save_checkout == (self.old_operation_id@ != operation_id@
                || self.new_workspace_name is Some),
            r.wc.checkout_state.operation_id@ == operation_id@,
            r.wc.checkout_state.workspace_name@ == match self.new_workspace_name {
                Some(name) => name@,
                None => self.checkout_state.workspace_name@,
            },
            r.wc.working_copy_path == self.working_copy_path,
            r.wc.state_path == self.state_path,
            r.wc.tree_state == Some(self.tree_state),
            r.wc.tree_state_settings == self.tree_state_settings,
    {
        let save_checkout = !fs_path::same_bytes(&self.old_operation_id, &operation_id)
            || self.new_workspace_name.is_some();
        let mut checkout_state = self.checkout_state;
        if save_checkout {
            checkout_state.operation_id = operation_id;
            if let Some(workspace_name) = self.new_workspace_name {
                checkout_state.workspace_name = workspace_name;
            }
        }
        FinishedWorkingCopy {
            wc: LocalWorkingCopy {
                working_copy_path: self.working_copy_path,
                state_path: self.state_path,
                checkout_state,
                tree_state: Some(self.tree_state),
                tree_state_settings: self.tree_state_settings,
            },
            save_tree_state: self.tree_state_dirty,
            save_checkout,
        }
    }
}

} // verus!
