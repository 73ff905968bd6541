//! A pool of workspaces in which a command is run for one commit at a time.

use vstd::prelude::*;
use vstd::string::StringExecFns;

use crate::backend;
use crate::backend::MergedTreeValue;
use crate::checkout;
use crate::fs_path;
use crate::fs_path::FsPath;
use crate::repo_path::RepoPathBuf;
use crate::text;

verus! {

/// How long to sleep in the first place while all workspaces are taken, in
/// milliseconds.
pub const MIN_SLEEP_MILLIS: u64 = 10;

/// How long to sleep at most while all workspaces are taken, in milliseconds.
pub const MAX_SLEEP_MILLIS: u64 = 250;

/// Size up to which new files in a workspace are tracked, in bytes.
pub const MAX_NEW_FILE_SIZE: u64 = 64_000;

/// Manages a fixed-size pool of workspaces.
///
/// Each workspace lives at `N/` in the directory of the pool, with subdirs
/// `working_copy/` and `state/`. Its lockfile is the sibling `N.lock`. Workspaces
/// persist between invocations so build artifacts can be reused. Acquisition picks
/// the first free workspace, so multiple concurrent processes cooperatively share
/// the pool.
#[derive(Debug)]
pub struct WorkspacePool {
    pub base_path: FsPath,
    pub size: usize,
    /// When true, wipe each slot's working copy on acquisition so every commit
    /// starts from a freshly checked-out tree (no artifact reuse).
    pub clean: bool,
}

/// The directory of the pool of a repository.
pub open spec fn pool_path(repo_path: Seq<fs_path::FsPart>) -> Seq<fs_path::FsPart> {
    fs_path::parent_parts(repo_path)->0.push(fs_path::FsPart::Normal("run"@)).push(
        fs_path::FsPart::Normal("default"@),
    )
}

/// The directory of a workspace.
pub open spec fn slot_dir(base: Seq<fs_path::FsPart>, index: nat) -> Seq<fs_path::FsPart> {
    base.push(fs_path::FsPart::Normal(text::decimal(index)))
}

/// The lockfile of a workspace.
pub open spec fn slot_lock(base: Seq<fs_path::FsPart>, index: nat) -> Seq<fs_path::FsPart> {
    base.push(fs_path::FsPart::Normal(text::decimal(index) + ".lock"@))
}

/// Workspaces do not get in each other's way: no two have the same directory or the
/// same lockfile, and none has the lockfile of another as its directory.
pub proof fn lemma_slots_apart(base: Seq<fs_path::FsPart>, i: nat, j: nat)
    ensures
        i != j ==> slot_dir(base, i) != slot_dir(base, j),
        i != j ==> slot_lock(base, i) != slot_lock(base, j),
        slot_dir(base, i) != slot_lock(base, j),
{
    reveal_strlit(".lock");
    let n = base.len() as int;
    let (di, dj) = (text::decimal(i), text::decimal(j));
    assert(slot_dir(base, i)[n] == fs_path::FsPart::Normal(di));
    assert(slot_dir(base, j)[n] == fs_path::FsPart::Normal(dj));
    assert(slot_lock(base, i)[n] == fs_path::FsPart::Normal(di + ".lock"@));
    assert(slot_lock(base, j)[n] == fs_path::FsPart::Normal(dj + ".lock"@));
    if di == dj {
        text::lemma_decimal_injective(i, j);
    }
    if di + ".lock"@ == dj + ".lock"@ {
        assert((di + ".lock"@).len() == di.len() + 5);
        assert((dj + ".lock"@).len() == dj.len() + 5);
        assert(di =~= (di + ".lock"@).subrange(0, di.len() as int));
        assert(dj =~= (dj + ".lock"@).subrange(0, dj.len() as int));
    }
    if di == dj + ".lock"@ {
        text::lemma_decimal_digits(i);
        assert(di[dj.len() as int] == '.');
    }
}

impl WorkspacePool {
    /// A pool has at least one workspace.
    pub open spec fn wf(&self) -> bool {
        self.size > 0
    }

    /// The pool of the repository whose data lies at `repo_path`. It lies next to
    /// that, so as not to write under it.
    pub fn new(repo_path: &FsPath, size: usize, clean: bool) -> (r: WorkspacePool)
        requires
            size > 0,
            fs_path::parent_parts(repo_path@) is Some,
        ensures
            r.wf(),
            r.base_path@ == pool_path(repo_path@),
            r.size == size,
            r.clean == clean,
    {
        let mut base_path = match repo_path.parent() {
            Some(parent) => parent,
            None => FsPath::new(),
        };
        base_path.push_normal("run");
        base_path.push_normal("default");
        WorkspacePool { base_path, size, clean }
    }

    pub fn slot_path(&self, index: usize) -> (r: FsPath)
        ensures
            r@ == slot_dir(self.base_path@, index as nat),
    {
        let mut path = self.base_path.duplicate();
        path.push_normal(text::decimal_text(index as u64).as_str());
        path
    }

    pub fn slot_lock_path(&self, index: usize) -> (r: FsPath)
        ensures
            r@ == slot_lock(self.base_path@, index as nat),
    {
        let mut name = text::decimal_text(index as u64);
        name.append(".lock");
        let mut path = self.base_path.duplicate();
        path.push_normal(name.as_str());
        path
    }
}

/// What to do next to get hold of a workspace.
#[derive(Clone, Copy, Debug, PartialEq, Eq, Structural)]
pub enum SearchStep {
    /// Try to take the lock of the given workspace, without waiting for it.
    TryLock { slot: usize },
    /// All workspaces are taken. Wait, and try again.
    Sleep { millis: u64 },
    /// The workspace is there to be used.
    Acquired { slot: usize },
}

/// The search for a free workspace. The first round may fail if another worker (this
/// process or another) holds every slot.
#[derive(Clone, Copy, Debug, PartialEq, Eq, Structural)]
pub struct SlotSearch {
    /// How many workspaces there are.
    pub size: usize,
    /// The workspace that is tried.
    pub slot: usize,
    /// How long to sleep next.
    pub sleep_millis: u64,
}

/// How long to sleep after having slept that long.
pub open spec fn next_sleep(millis: u64) -> u64 {
    if millis * 2 <= MAX_SLEEP_MILLIS {
        (millis * 2) as u64
    } else {
        MAX_SLEEP_MILLIS
    }
}

/// How long to sleep after `rounds` rounds without a free workspace.
pub open spec fn sleep_after(rounds: nat) -> u64
    decreases rounds,
{
    if rounds == 0 {
        MIN_SLEEP_MILLIS
    } else {
        next_sleep(sleep_after((rounds - 1) as nat))
    }
}

/// The sleeps never get shorter, and stay between the shortest and the longest.
pub proof fn lemma_sleeps(rounds: nat)
    ensures
        MIN_SLEEP_MILLIS <= sleep_after(rounds) <= sleep_after(rounds + 1) <= MAX_SLEEP_MILLIS,
        rounds >= 5 ==> sleep_after(rounds) == MAX_SLEEP_MILLIS,
    decreases rounds,
{
    reveal_with_fuel(sleep_after, 7);
    if rounds > 0 {
        lemma_sleeps((rounds - 1) as nat);
    }
}

/// How a search goes on after the lock of a workspace was tried.
pub open spec fn after_try(search: SlotSearch, is_locked: bool) -> (SlotSearch, SearchStep) {
    if is_locked {
        (search, SearchStep::Acquired { slot: search.slot })
    } else if search.slot < search.size {
        let slot = (search.slot + 1) as usize;
        (SlotSearch { slot, ..search }, SearchStep::TryLock { slot })
    } else {
        (
            SlotSearch { slot: 1, sleep_millis: next_sleep(search.sleep_millis), ..search },
            SearchStep::Sleep { millis: search.sleep_millis },
        )
    }
}

/// The workspace that a search gets hold of before it sleeps, if it does. `is_free` tells
/// of each workspace whether its lock can be taken.
pub open spec fn acquired_in_round(search: SlotSearch, is_free: spec_fn(usize) -> bool) -> Option<
    usize,
>
    decreases search.size - search.slot,
{
    match after_try(search, is_free(search.slot)) {
        (_, SearchStep::Acquired { slot }) => Some(slot),
        (next, SearchStep::TryLock { .. }) if search.slot < search.size => acquired_in_round(
            next,
            is_free,
        ),
        _ => None,
    }
}

/// A search picks the first free workspace. It sleeps only if all of them are taken.
pub proof fn lemma_first_free(search: SlotSearch, is_free: spec_fn(usize) -> bool)
    requires
        search.wf(),
    ensures
        match acquired_in_round(search, is_free) {
            Some(slot) => {
                &&& search.slot <= slot <= search.size
                &&& is_free(slot)
                &&& forall|i: usize| search.slot <= i < slot ==> !#[trigger] is_free(i)
            },
            None => forall|i: usize| search.slot <= i <= search.size ==> !#[trigger] is_free(i),
        },
    decreases search.size - search.slot,
{
    if !is_free(search.slot) && search.slot < search.size {
        lemma_first_free(after_try(search, false).0, is_free);
    }
}

impl SlotSearch {
    /// A workspace of the pool is tried. Workspaces are counted from 1.
    pub open spec fn wf(&self) -> bool {
        1 <= self.slot <= self.size
    }

    /// Starts with the first workspace.
    pub fn new(size: usize) -> (r: (SlotSearch, SearchStep))
        requires
            size > 0,
        ensures
            r.0.wf(),
            r.0 == (SlotSearch { size, slot: 1, sleep_millis: sleep_after(0) }),
            r.1 == (SearchStep::TryLock { slot: 1 }),
    {
        (
            SlotSearch { size, slot: 1, sleep_millis: MIN_SLEEP_MILLIS },
            SearchStep::TryLock { slot: 1 },
        )
    }

    /// Goes on after the lock of a workspace was tried.
    pub fn tried(&mut self, is_locked: bool) -> (r: SearchStep)
        requires
            old(self).wf(),
        ensures
            final(self).wf(),
            (*final(self), r) == after_try(*old(self), is_locked),
    {
        if is_locked {
            return SearchStep::Acquired { slot: self.slot };
        }
        if self.slot < self.size {
            self.slot = self.slot + 1;
            return SearchStep::TryLock { slot: self.slot };
        }
        let millis = self.sleep_millis;
        self.slot = 1;
        self.sleep_millis = if millis <= MAX_SLEEP_MILLIS / 2 {
            millis * 2
        } else {
            MAX_SLEEP_MILLIS
        };
        SearchStep::Sleep { millis }
    }

    /// Goes on after the sleep.
    pub fn slept(&self) -> (r: SearchStep)
        requires
            self.wf(),
        ensures
            r == (SearchStep::TryLock { slot: self.slot }),
    {
        SearchStep::TryLock { slot: self.slot }
    }
}

/// A step in the preparation of a workspace for a commit.
#[derive(Clone, Copy, Debug, PartialEq, Eq, Structural)]
pub enum PrepareStep {
    /// Load the saved tree state, so that only files that have changed are touched.
    LoadTreeState,
    /// Delete the saved tree state. `may_be_missing` tells whether it is fine if there
    /// is none.
    RemoveTreeState { may_be_missing: bool },
    /// Delete the working copy with all files in it, if there is one.
    RemoveWorkingCopy,
    /// Delete the directory of the state, if there is one.
    RemoveState,
    /// Create the directory of the working copy, if there is none.
    CreateWorkingCopy,
    /// Create the directory of the state.
    CreateState,
    /// Start with an empty tree state that is not saved.
    InitTreeState,
    /// Check out the tree of the commit.
    CheckOut,
    /// Remove files from a previous run that were ignored in the previous revision
    /// but are not ignored in the new commit.
    RemoveNewFiles,
}

/// How a workspace is prepared. `is_reused` tells whether it has a saved tree state.
pub open spec fn prepare_steps(clean: bool, is_reused: bool) -> Seq<PrepareStep> {
    let start = if !clean && is_reused {
        seq![
            PrepareStep::LoadTreeState,
            PrepareStep::RemoveTreeState { may_be_missing: false },
        ]
    } else {
        seq![
            PrepareStep::RemoveTreeState { may_be_missing: true },
            PrepareStep::RemoveWorkingCopy,
            PrepareStep::RemoveState,
            PrepareStep::CreateWorkingCopy,
            PrepareStep::CreateState,
            PrepareStep::InitTreeState,
        ]
    };
    let checked_out = start.push(PrepareStep::CheckOut).push(PrepareStep::CreateWorkingCopy);
    if is_reused {
        checked_out.push(PrepareStep::RemoveNewFiles)
    } else {
        checked_out
    }
}

/// A saved tree state is a sign that the workspace is in order: before files are
/// touched, it is deleted. If the process crashes before the state is saved again, the
/// next acquisition will see the file absent and wipe the slot rather than trusting
/// inconsistent state.
pub proof fn lemma_marker_removed_first(clean: bool, is_reused: bool, i: int)
    requires
        0 <= i < prepare_steps(clean, is_reused).len(),
        ({
            let step = prepare_steps(clean, is_reused)[i];
            ||| step == PrepareStep::CheckOut
            ||| step == PrepareStep::RemoveNewFiles
            ||| step == PrepareStep::RemoveWorkingCopy
        }),
    ensures
        exists|j: int| 0 <= j < i && #[trigger] prepare_steps(clean, is_reused)[j] is RemoveTreeState,
{
    let steps = prepare_steps(clean, is_reused);
    if !clean && is_reused {
        assert(steps[1] is RemoveTreeState);
    } else {
        assert(steps[0] is RemoveTreeState);
    }
}

/// A workspace that can be reused keeps its files until the new tree is checked out. All
/// others, and all if a clean start is asked for, lose them before.
pub proof fn lemma_reused_files(clean: bool, is_reused: bool)
    ensures
        !clean && is_reused ==> !prepare_steps(clean, is_reused).contains(
            PrepareStep::RemoveWorkingCopy,
        ),
        clean || !is_reused ==> exists|i: int, j: int|
            0 <= i < j < prepare_steps(clean, is_reused).len()
                && #[trigger] prepare_steps(clean, is_reused)[i] == PrepareStep::RemoveWorkingCopy
                && #[trigger] prepare_steps(clean, is_reused)[j] == PrepareStep::CheckOut,
{
    let steps = prepare_steps(clean, is_reused);
    if clean || !is_reused {
        assert(steps[1] == PrepareStep::RemoveWorkingCopy);
        assert(steps[6] == PrepareStep::CheckOut);
    }
}

impl WorkspacePool {
    /// Decides how a workspace is prepared.
    pub fn plan_workspace(&self, is_reused: bool) -> (r: Vec<PrepareStep>)
        ensures
            r@ == prepare_steps(self.clean, is_reused),
    {
        let mut steps: Vec<PrepareStep> = Vec::new();
        if !self.clean && is_reused {
            // Load the persisted tree state so the checkout below can diff against it,
            // only touching files that changed and removing files no longer present in
            // the new tree.
            steps.push(PrepareStep::LoadTreeState);
            steps.push(PrepareStep::RemoveTreeState { may_be_missing: false });
        } else {
            // This is the first use of the workspace, the previous job crashed, or a
            // clean start was asked for. Wipe any leftover working copy so we start
            // from a clean slate, then use an in-memory empty tree state.
            steps.push(PrepareStep::RemoveTreeState { may_be_missing: true });
            steps.push(PrepareStep::RemoveWorkingCopy);
            steps.push(PrepareStep::RemoveState);
            steps.push(PrepareStep::CreateWorkingCopy);
            steps.push(PrepareStep::CreateState);
            steps.push(PrepareStep::InitTreeState);
        }
        steps.push(PrepareStep::CheckOut);
        // If we checked out a revision with a completely empty tree, the working copy
        // directory is deleted because empty directories are.
        steps.push(PrepareStep::CreateWorkingCopy);
        if is_reused {
            steps.push(PrepareStep::RemoveNewFiles);
        }
        assert(steps@ =~= prepare_steps(self.clean, is_reused));
        steps
    }
}

/// What two trees have at a path where they differ.
#[derive(Debug)]
pub struct DiffEntry {
    pub path: RepoPathBuf,
    pub before: MergedTreeValue,
    pub after: MergedTreeValue,
}

/// Whether a path is new.
pub open spec fn is_added(entry: DiffEntry) -> bool {
    backend::absent(entry.before@) && !backend::absent(entry.after@)
}

/// The paths of some entries of a diff.
pub open spec fn diff_paths(diff: Seq<DiffEntry>) -> Seq<Seq<char>> {
    diff.map_values(|entry: DiffEntry| entry.path@)
}

/// Lists the paths that are new. Only if there are any does the tree have to be checked
/// out again after they were removed.
pub fn added_paths(diff: Vec<DiffEntry>) -> (r: Vec<RepoPathBuf>)
    ensures
        checkout::path_list(r@) == diff_paths(diff@.filter(|entry: DiffEntry| is_added(entry))),
{
    let ghost pred = |entry: DiffEntry| is_added(entry);
    let ghost list = diff@;
    let mut out: Vec<RepoPathBuf> = Vec::new();
    proof {
        reveal(Seq::filter);
        assert(list.take(0) =~= Seq::empty());
        assert(checkout::path_list(out@) =~= diff_paths(list.take(0).filter(pred)));
    }
    for entry in it: diff
        invariant
            it.seq() == list,
            pred == |entry: DiffEntry| is_added(entry),
            checkout::path_list(out@) == diff_paths(list.take(it.index() as int).filter(pred)),
    {
        let ghost n = it.index() as int;
        let ghost before = out@;
        let ghost kept = list.take(n).filter(pred);
        proof {
            reveal(Seq::filter);
            assert(list.take(n + 1).drop_last() =~= list.take(n));
            assert(list.take(n + 1).last() == entry);
        }
        if entry.before.is_absent() && !entry.after.is_absent() {
            let path = entry.path;
            out.push(path);
            proof {
                assert(checkout::path_list(out@) =~= checkout::path_list(before).push(path@));
                assert(diff_paths(kept.push(entry)) =~= diff_paths(kept).push(path@));
            }
        }
    }
    assert(list.take(list.len() as int) =~= list);
    out
}

} // verus!
