//! The state of a working copy: what is checked out, and what was last seen of
//! its files.

use vstd::prelude::*;

use crate::backend;
use crate::backend::MergedTree;
use crate::backend::MergedTreeValue;
use crate::checkout;
use crate::checkout::CheckoutStats;
use crate::checkout::TreeUpdate;
use crate::entry_run::UpdateContext;
use crate::eol::EolConversionSettings;
use crate::eol::TargetEolStrategy;
use crate::file_state;
use crate::file_state::DiskMetadata;
use crate::file_state::ExecChangePolicy;
use crate::file_state::FileState;
use crate::file_state::MillisSinceEpoch;
use crate::file_states;
use crate::file_states::FileStates;
use crate::file_states_map;
use crate::file_states_map::FileStatesMap;
use crate::file_states_map::KeyedByPath;
use crate::fs_path;
use crate::fs_path::FsPath;
use crate::matchers;
use crate::matchers::FsmonitorKind;
use crate::matchers::FsmonitorScan;
use crate::matchers::FsmonitorSettings;
use crate::matchers::SnapshotMatcher;
use crate::path_model;
use crate::path_set::PathSet;
use crate::platform::Platform;
use crate::proto::FileStateEntry;
use crate::proto::SparsePatternsProto;
use crate::proto::TreeStateProto;
use crate::proto::WatchmanClock;
use crate::repo_path::RepoPath;
use crate::repo_path::RepoPathBuf;
use crate::reset;
use crate::settings::ConflictMarkerStyle;
use crate::settings::TreeStateSettings;
use crate::snapshot::FileSnapshotter;
use crate::snapshot::UntrackedReason;
use crate::snapshot_output;
use crate::snapshot_output::SnapshotOutput;
use crate::text::Order;

verus! {

/// What the platform and the filesystem offer. `None` stands for a check that
/// failed or was not made.
#[derive(Clone, Copy, Debug, PartialEq, Eq, Structural)]
pub struct DiskSupport {
    pub platform: Platform,
    pub symlinks: Option<bool>,
    pub exec_bits: Option<bool>,
}

/// The state of a working copy.
pub struct TreeState {
    working_copy_path: FsPath,
    state_path: FsPath,
    tree: MergedTree,
    file_states: FileStatesMap,
    // Currently only path prefixes
    sparse_patterns: Vec<RepoPathBuf>,
    own_mtime: MillisSinceEpoch,
    symlink_support: bool,
    /// The most recent clock value returned by Watchman. Will only be set if
    /// the repo is configured to use the Watchman filesystem monitor and
    /// Watchman has been queried at least once.
    watchman_clock: Option<WatchmanClock>,
    conflict_marker_style: ConflictMarkerStyle,
    exec_policy: ExecChangePolicy,
    fsmonitor_settings: FsmonitorSettings,
    eol_settings: EolConversionSettings,
    platform: Platform,
}

/// What a [`TreeState`] stands for.
pub struct TreeStateFacts {
    pub working_copy_path: Seq<fs_path::FsPart>,
    pub state_path: Seq<fs_path::FsPart>,
    pub tree: backend::TreeIdsAndLabels,
    pub file_states: Seq<FileStateEntry>,
    pub sparse_patterns: Seq<Seq<char>>,
    pub own_mtime: MillisSinceEpoch,
    pub symlink_support: bool,
    pub watchman_clock: Option<Seq<u8>>,
    pub conflict_marker_style: ConflictMarkerStyle,
    pub exec_policy: ExecChangePolicy,
    pub fsmonitor_settings: FsmonitorKind,
    pub eol_settings: EolConversionSettings,
    pub platform: Platform,
}

impl View for TreeState {
    type V = TreeStateFacts;

    closed spec fn view(&self) -> TreeStateFacts {
        TreeStateFacts {
            working_copy_path: self.working_copy_path@,
            state_path: self.state_path@,
            tree: self.tree@,
            file_states: self.file_states@,
            sparse_patterns: checkout::path_list(self.sparse_patterns@),
            own_mtime: self.own_mtime,
            symlink_support: self.symlink_support,
            watchman_clock: clock_bytes(self.watchman_clock),
            conflict_marker_style: self.conflict_marker_style,
            exec_policy: self.exec_policy,
            fsmonitor_settings: self.fsmonitor_settings@,
            eol_settings: self.eol_settings,
            platform: self.platform,
        }
    }
}

/// The bytes of a clock.
pub open spec fn clock_bytes(clock: Option<WatchmanClock>) -> Option<Seq<u8>> {
    match clock {
        Some(clock) => Some(clock.encoded@),
        None => None,
    }
}

/// When the state was last saved, by the metadata of its file.
pub open spec fn saved_mtime(metadata: Option<DiskMetadata>) -> MillisSinceEpoch {
    match metadata {
        Some(metadata) => match file_state::recorded_millis(metadata.modified) {
            Some(mtime) => mtime,
            None => MillisSinceEpoch(0),
        },
        None => MillisSinceEpoch(0),
    }
}

/// All texts of a list are valid paths.
pub open spec fn valid_paths(paths: Seq<Seq<char>>) -> bool {
    forall|i: int| 0 <= i < paths.len() ==> path_model::valid_path(#[trigger] paths[i])
}

/// The state of a new working copy.
pub open spec fn initial_facts(
    empty_tree: backend::TreeIdsAndLabels,
    working_copy_path: Seq<fs_path::FsPart>,
    state_path: Seq<fs_path::FsPart>,
    settings: TreeStateSettings,
    support: DiskSupport,
) -> TreeStateFacts {
    TreeStateFacts {
        working_copy_path,
        state_path,
        tree: empty_tree,
        file_states: Seq::empty(),
        sparse_patterns: seq![Seq::empty()],
        own_mtime: MillisSinceEpoch(0),
        symlink_support: support.symlinks == Some(true),
        watchman_clock: None,
        conflict_marker_style: settings.conflict_marker_style,
        exec_policy: file_state::exec_policy(
            support.platform,
            settings.exec_change_setting,
            support.exec_bits,
        ),
        fsmonitor_settings: settings.fsmonitor_settings@,
        eol_settings: settings.eol_conversion_settings,
        platform: support.platform,
    }
}

impl TreeState {
    /// File states are sorted by path without duplicates, and sparse patterns are
    /// valid paths. A tree has one side more than bases.
    pub open spec fn wf(&self) -> bool {
        &&& file_states::sorted_entries(self@.file_states)
        &&& valid_paths(self@.sparse_patterns)
        &&& self@.tree.tree_ids.len() % 2 == 1
    }

    pub fn working_copy_path(&self) -> (r: &FsPath)
        ensures
            r@ == self@.working_copy_path,
    {
        &self.working_copy_path
    }

    pub fn state_path(&self) -> (r: &FsPath)
        ensures
            r@ == self@.state_path,
    {
        &self.state_path
    }

    pub fn current_tree(&self) -> (r: &MergedTree)
        ensures
            r@ == self@.tree,
    {
        &self.tree
    }

    pub fn file_states(&self) -> (r: FileStates<'_>)
        ensures
            r@ == self@.file_states,
    {
        self.file_states.all()
    }

    pub fn sparse_patterns(&self) -> (r: &Vec<RepoPathBuf>)
        ensures
            checkout::path_list(r@) == self@.sparse_patterns,
    {
        &self.sparse_patterns
    }

    pub fn conflict_marker_style(&self) -> (r: ConflictMarkerStyle)
        ensures
            r == self@.conflict_marker_style,
    {
        self.conflict_marker_style
    }

    pub fn fsmonitor_settings(&self) -> (r: &FsmonitorSettings)
        ensures
            r@ == self@.fsmonitor_settings,
    {
        &self.fsmonitor_settings
    }

    /// The clock that Watchman is asked for changes since, if any.
    pub fn watchman_clock(&self) -> (r: Option<&WatchmanClock>)
        ensures
            match r {
                Some(clock) => self@.watchman_clock == Some(clock.encoded@),
                None => self@.watchman_clock is None,
            },
    {
        self.watchman_clock.as_ref()
    }

    pub fn target_eol_strategy(&self) -> (r: TargetEolStrategy)
        ensures
            r.spec_settings() == self@.eol_settings,
            r.spec_platform() == self@.platform,
    {
        TargetEolStrategy::for_platform(self.eol_settings, self.platform)
    }

    /// Whether a path is part of the working copy.
    pub fn is_in_sparse_patterns(&self, path: RepoPath<'_>) -> (r: bool)
        ensures
            r == matchers::in_prefixes(self@.sparse_patterns, path@),
    {
        matchers::matches_prefixes(&self.sparse_patterns, path)
    }

    /// What an update has to know.
    pub fn update_context(&self) -> (r: UpdateContext)
        ensures
            r.platform == self@.platform,
            r.working_copy_path@ == self@.working_copy_path,
            r.exec_policy == self@.exec_policy,
            r.symlink_support == self@.symlink_support,
    {
        UpdateContext {
            platform: self.platform,
            working_copy_path: self.working_copy_path.duplicate(),
            exec_policy: self.exec_policy,
            symlink_support: self.symlink_support,
        }
    }

    /// The state of a new working copy, and what is to be saved of it.
    pub fn init(
        empty_tree: MergedTree,
        working_copy_path: FsPath,
        state_path: FsPath,
        tree_state_settings: &TreeStateSettings,
        support: DiskSupport,
    ) -> (r: (TreeState, TreeStateProto))
        requires
            empty_tree@.tree_ids.len() % 2 == 1,
        ensures
            r.0.wf(),
            r.0@ == initial_facts(
                empty_tree@,
                working_copy_path@,
                state_path@,
                *tree_state_settings,
                support,
            ),
            stores(r.0@, r.1),
    {
        let wc = Self::empty(
            empty_tree,
            working_copy_path,
            state_path,
            tree_state_settings,
            support,
        );
        let proto = wc.to_proto();
        (wc, proto)
    }

    /// Like `init` but does not tell what to save. Use when the caller will save
    /// state itself only after a successful operation (e.g. to use the absence of
    /// the saved state as a dirty marker).
    pub fn init_without_saving(
        empty_tree: MergedTree,
        working_copy_path: FsPath,
        state_path: FsPath,
        tree_state_settings: &TreeStateSettings,
        support: DiskSupport,
    ) -> (r: TreeState)
        requires
            empty_tree@.tree_ids.len() % 2 == 1,
        ensures
            r.wf(),
            r@ == initial_facts(
                empty_tree@,
                working_copy_path@,
                state_path@,
                *tree_state_settings,
                support,
            ),
    {
        Self::empty(empty_tree, working_copy_path, state_path, tree_state_settings, support)
    }

    fn empty(
        empty_tree: MergedTree,
        working_copy_path: FsPath,
        state_path: FsPath,
        tree_state_settings: &TreeStateSettings,
        support: DiskSupport,
    ) -> (r: TreeState)
        requires
            empty_tree@.tree_ids.len() % 2 == 1,
        ensures
            r.wf(),
            r@ == initial_facts(
                empty_tree@,
                working_copy_path@,
                state_path@,
                *tree_state_settings,
                support,
            ),
    {
        let mut sparse_patterns: Vec<RepoPathBuf> = Vec::new();
        sparse_patterns.push(RepoPathBuf::root());
        let r = TreeState {
            working_copy_path,
            state_path,
            tree: empty_tree,
            file_states: FileStatesMap::new(),
            sparse_patterns,
            own_mtime: MillisSinceEpoch(0),
            symlink_support: match support.symlinks {
                Some(supported) => supported,
                None => false,
            },
            watchman_clock: None,
            conflict_marker_style: tree_state_settings.conflict_marker_style,
            exec_policy: ExecChangePolicy::new(
                support.platform,
                tree_state_settings.exec_change_setting,
                support.exec_bits,
            ),
            fsmonitor_settings: tree_state_settings.fsmonitor_settings.duplicate(),
            eol_settings: tree_state_settings.eol_conversion_settings,
            platform: support.platform,
        };
        assert(r@.sparse_patterns =~= seq![Seq::<char>::empty()]);
        r
    }

    /// Takes over when the state was last saved, by the metadata of its file, if
    /// it could be read.
    pub fn update_own_mtime(&mut self, metadata: Option<DiskMetadata>)
        ensures
            final(self)@ == (TreeStateFacts {
                own_mtime: saved_mtime(metadata),
                ..old(self)@
            }),
    {
        self.own_mtime = match metadata {
            Some(metadata) => match file_state::mtime_from_metadata(&metadata) {
                Ok(mtime) => mtime,
                Err(_) => MillisSinceEpoch(0),
            },
            None => MillisSinceEpoch(0),
        };
    }

    /// Forgets what is known from Watchman.
    pub fn reset_watchman(&mut self)
        ensures
            final(self)@ == (TreeStateFacts { watchman_clock: None, ..old(self)@ }),
    {
        self.watchman_clock = None;
    }
}

/// The texts of a list of strings.
pub open spec fn text_list(texts: Seq<String>) -> Seq<Seq<char>> {
    texts.map_values(|text: String| text@)
}

/// The bytes of a list of ids.
pub open spec fn id_list(ids: Seq<Vec<u8>>) -> Seq<Seq<u8>> {
    ids.map_values(|id: Vec<u8>| id@)
}

/// The paths of a list of entries.
pub open spec fn entry_texts(entries: Seq<FileStateEntry>) -> Seq<Seq<char>> {
    entries.map_values(|entry: FileStateEntry| entry.path@)
}

/// Whether this is what is saved of a state.
pub open spec fn stores(facts: TreeStateFacts, proto: TreeStateProto) -> bool {
    &&& proto.legacy_tree_id@.len() == 0
    &&& id_list(proto.tree_ids@) == facts.tree.tree_ids
    &&& text_list(proto.conflict_labels@) == facts.tree.labels
    &&& proto.file_states@ == facts.file_states
    &&& proto.is_file_states_sorted
    &&& proto.sparse_patterns matches Some(patterns)
    &&& text_list(patterns.prefixes@) == facts.sparse_patterns
    &&& clock_bytes(proto.watchman_clock) == facts.watchman_clock
}

/// Whether a saved state can be read: its paths are valid, no file is listed twice,
/// and the files are sorted if they are said to be.
pub open spec fn readable(proto: TreeStateProto) -> bool {
    &&& proto.tree_ids@.len() == 0 || proto.tree_ids@.len() % 2 == 1
    &&& forall|i: int|
        0 <= i < proto.file_states@.len() ==> file_states::valid_entry(
            #[trigger] proto.file_states@[i],
        )
    &&& file_states_map::distinct_keys(proto.file_states@)
    &&& proto.is_file_states_sorted ==> file_states::sorted_entries(proto.file_states@)
    &&& proto.sparse_patterns matches Some(patterns) ==> valid_paths(text_list(patterns.prefixes@))
}

/// The tree of a saved state.
pub open spec fn restored_tree(proto: TreeStateProto) -> backend::TreeIdsAndLabels {
    if proto.tree_ids@.len() == 0 {
        backend::TreeIdsAndLabels { tree_ids: seq![proto.legacy_tree_id@], labels: Seq::empty() }
    } else {
        backend::TreeIdsAndLabels {
            tree_ids: id_list(proto.tree_ids@),
            labels: text_list(proto.conflict_labels@),
        }
    }
}

/// The sparse patterns of a saved state. Old working copies have none, and are not
/// sparse.
pub open spec fn restored_patterns(proto: Option<SparsePatternsProto>) -> Seq<Seq<char>> {
    match proto {
        Some(patterns) => text_list(patterns.prefixes@),
        None => seq![Seq::empty()],
    }
}

/// Reads stored sparse patterns.
pub fn sparse_patterns_from_proto(proto: Option<SparsePatternsProto>) -> (r: Vec<RepoPathBuf>)
    requires
        proto matches Some(patterns) ==> valid_paths(text_list(patterns.prefixes@)),
    ensures
        checkout::path_list(r@) == restored_patterns(proto),
{
    let mut sparse_patterns: Vec<RepoPathBuf> = Vec::new();
    match proto {
        Some(patterns) => {
            let ghost texts = text_list(patterns.prefixes@);
            let ghost list = patterns.prefixes@;
            assert(checkout::path_list(sparse_patterns@) =~= texts.take(0));
            for prefix in it: patterns.prefixes
                invariant
                    it.seq() == list,
                    texts == text_list(list),
                    valid_paths(texts),
                    checkout::path_list(sparse_patterns@) == texts.take(it.index() as int),
            {
                let ghost n = it.index() as int;
                let ghost before = checkout::path_list(sparse_patterns@);
                assert(prefix@ == texts[n]);
                if let Ok(path) = RepoPathBuf::from_internal_string(prefix) {
                    sparse_patterns.push(path);
                    assert(checkout::path_list(sparse_patterns@) =~= before.push(path@));
                    assert(texts.take(n + 1) =~= texts.take(n).push(texts[n]));
                }
            }
            assert(texts.take(list.len() as int) =~= texts);
        },
        None => {
            // For compatibility with old working copies.
            sparse_patterns.push(RepoPathBuf::root());
            assert(checkout::path_list(sparse_patterns@) =~= seq![Seq::<char>::empty()]);
        },
    }
    sparse_patterns
}

/// A saved state can be read again, and gives back what was saved.
pub proof fn lemma_stored_state(facts: TreeStateFacts, proto: TreeStateProto)
    requires
        stores(facts, proto),
        file_states::sorted_entries(facts.file_states),
        valid_paths(facts.sparse_patterns),
        facts.tree.tree_ids.len() % 2 == 1,
    ensures
        readable(proto),
        restored_tree(proto) == facts.tree,
        restored_patterns(proto.sparse_patterns) == facts.sparse_patterns,
        proto.is_file_states_sorted,
        proto.file_states@ == facts.file_states,
        clock_bytes(proto.watchman_clock) == facts.watchman_clock,
{
    assert(proto.tree_ids@.len() == facts.tree.tree_ids.len());
    let data = proto.file_states@;
    assert forall|i: int| 0 <= i < data.len() implies path_model::valid_path(
        (#[trigger] data[i]).key(),
    ) by {
        assert(file_states::valid_entry(data[i]));
    }
    assert forall|i: int, j: int|
        0 <= i < data.len() && 0 <= j < data.len() && i != j implies (#[trigger] data[i]).key() != (
    #[trigger] data[j]).key() by {
        assert(file_states::valid_entry(data[i]));
        assert(file_states::valid_entry(data[j]));
        path_model::lemma_path_order_equal(data[i].path@, data[j].path@);
        path_model::lemma_path_order_equal(data[j].path@, data[i].path@);
        if i < j {
            assert(path_model::path_order(data[i].path@, data[j].path@) == Order::Less);
        } else {
            assert(path_model::path_order(data[j].path@, data[i].path@) == Order::Less);
        }
    }
}

/// Whether no entry is listed twice, and all are valid.
fn has_distinct_entries(data: &Vec<FileStateEntry>) -> (r: bool)
    ensures
        r == ((forall|i: int| 0 <= i < data@.len() ==> file_states::valid_entry(#[trigger] data@[i]))
            && file_states_map::distinct_keys(data@)),
{
    let mut seen = PathSet::new();
    let mut i: usize = 0;
    assert(seen@ =~= entry_texts(data@.take(0)));
    while i < data.len()
        invariant
            i <= data@.len(),
            seen.wf(),
            seen@ == entry_texts(data@.take(i as int)),
            forall|k: int| 0 <= k < i ==> file_states::valid_entry(#[trigger] data@[k]),
            forall|k: int, j: int|
                0 <= k < i && 0 <= j < i && k != j ==> (#[trigger] data@[k]).path@ != (
                #[trigger] data@[j]).path@,
        decreases data@.len() - i,
    {
        let entry = &data[i];
        if entry.state.is_none() {
            assert(!file_states::valid_entry(data@[i as int]));
            return false;
        }
        let path = match RepoPathBuf::from_internal_string(entry.path.clone()) {
            Ok(path) => path,
            Err(_) => {
                assert(!file_states::valid_entry(data@[i as int]));
                return false;
            },
        };
        let ghost before = seen@;
        if !seen.insert(path) {
            proof {
                let k = choose|k: int| 0 <= k < before.len() && before[k] == path@;
                assert(data@[k].key() == data@[i as int].key());
            }
            return false;
        }
        proof {
            assert(entry_texts(data@.take(i + 1)) =~= before.push(path@));
            assert forall|k: int, j: int|
                0 <= k < i + 1 && 0 <= j < i + 1 && k != j implies (#[trigger] data@[k]).path@ != (
            #[trigger] data@[j]).path@ by {
                if k == i {
                    assert(before[j] == data@[j].path@);
                    assert(before.contains(before[j]));
                } else if j == i {
                    assert(before[k] == data@[k].path@);
                    assert(before.contains(before[k]));
                }
            }
        }
        i += 1;
    }
    proof {
        assert forall|k: int| 0 <= k < data@.len() implies path_model::valid_path(
            (#[trigger] data@[k]).key(),
        ) by {
            assert(file_states::valid_entry(data@[k]));
        }
        assert forall|k: int, j: int|
            0 <= k < data@.len() && 0 <= j < data@.len() && k != j implies (
        #[trigger] data@[k]).key() != (#[trigger] data@[j]).key() by {
            assert(data@[k].path@ != data@[j].path@);
        }
    }
    true
}

/// Whether a saved state can be read.
pub fn is_readable(proto: &TreeStateProto) -> (r: bool)
    ensures
        r == readable(*proto),
{
    if proto.tree_ids.len() != 0 && proto.tree_ids.len() % 2 == 0 {
        return false;
    }
    if !has_distinct_entries(&proto.file_states) {
        return false;
    }
    if proto.is_file_states_sorted
        && !file_states::is_file_state_entries_proto_unique_and_sorted(&proto.file_states) {
        return false;
    }
    if let Some(patterns) = &proto.sparse_patterns {
        let ghost texts = text_list(patterns.prefixes@);
        let mut i: usize = 0;
        while i < patterns.prefixes.len()
            invariant
                i <= patterns.prefixes@.len(),
                proto.sparse_patterns == Some(*patterns),
                texts == text_list(patterns.prefixes@),
                forall|k: int| 0 <= k < i ==> path_model::valid_path(#[trigger] texts[k]),
            decreases patterns.prefixes@.len() - i,
        {
            assert(texts[i as int] == patterns.prefixes@[i as int]@);
            if RepoPath::from_internal_string(patterns.prefixes[i].as_str()).is_err() {
                assert(!valid_paths(texts));
                return false;
            }
            i += 1;
        }
    }
    true
}

impl TreeState {
    /// What is to be saved of this state.
    pub fn to_proto(&self) -> (r: TreeStateProto)
        ensures
            stores(self@, r),
    {
        let tree = self.tree.duplicate();
        let mut prefixes: Vec<String> = Vec::new();
        let ghost patterns = checkout::path_list(self.sparse_patterns@);
        let mut i: usize = 0;
        assert(text_list(prefixes@) =~= patterns.take(0));
        while i < self.sparse_patterns.len()
            invariant
                i <= self.sparse_patterns@.len(),
                patterns == checkout::path_list(self.sparse_patterns@),
                text_list(prefixes@) == patterns.take(i as int),
            decreases self.sparse_patterns@.len() - i,
        {
            let ghost before = text_list(prefixes@);
            prefixes.push(self.sparse_patterns[i].clone().into_internal_string());
            assert(text_list(prefixes@) =~= before.push(patterns[i as int]));
            assert(patterns.take(i + 1) =~= patterns.take(i as int).push(patterns[i as int]));
            i += 1;
        }
        assert(patterns.take(i as int) =~= patterns);
        TreeStateProto {
            legacy_tree_id: Vec::new(),
            tree_ids: tree.tree_ids,
            conflict_labels: tree.labels,
            file_states: self.file_states.to_proto(),
            // `FileStatesMap` is guaranteed to be sorted.
            is_file_states_sorted: true,
            sparse_patterns: Some(SparsePatternsProto { prefixes }),
            watchman_clock: match &self.watchman_clock {
                Some(clock) => Some(WatchmanClock { encoded: fs_path::copy_bytes(&clock.encoded) }),
                None => None,
            },
        }
    }

    /// Takes over a saved state. `metadata` is that of its file, if it could be
    /// read.
    pub fn read(&mut self, proto: TreeStateProto, metadata: Option<DiskMetadata>)
        requires
            readable(proto),
        ensures
            final(self).wf(),
            final(self)@ == (TreeStateFacts {
                own_mtime: saved_mtime(metadata),
                tree: restored_tree(proto),
                file_states: final(self)@.file_states,
                sparse_patterns: restored_patterns(proto.sparse_patterns),
                watchman_clock: clock_bytes(proto.watchman_clock),
                ..old(self)@
            }),
            final(self)@.file_states.to_multiset() == proto.file_states@.to_multiset(),
            proto.is_file_states_sorted ==> final(self)@.file_states == proto.file_states@,
    {
        self.update_own_mtime(metadata);
        if proto.tree_ids.len() == 0 {
            let mut tree_ids: Vec<Vec<u8>> = Vec::new();
            tree_ids.push(proto.legacy_tree_id);
            self.tree = MergedTree { tree_ids, labels: Vec::new() };
            assert(self.tree@.tree_ids =~= seq![proto.legacy_tree_id@]);
            assert(self.tree@.labels =~= Seq::<Seq<char>>::empty());
        } else {
            self.tree = MergedTree { tree_ids: proto.tree_ids, labels: proto.conflict_labels };
        }
        self.file_states = FileStatesMap::from_proto(
            proto.file_states,
            proto.is_file_states_sorted,
        );
        self.sparse_patterns = sparse_patterns_from_proto(proto.sparse_patterns);
        self.watchman_clock = proto.watchman_clock;
    }
}

/// A state that was found in its file, with the metadata of that, if it could be read.
pub struct SavedTreeState {
    pub proto: TreeStateProto,
    pub metadata: Option<DiskMetadata>,
}

/// Whether a state is the one that was saved. Only how the files are ordered may differ.
pub open spec fn restored(
    initial: TreeStateFacts,
    after: TreeStateFacts,
    saved: SavedTreeState,
) -> bool {
    &&& after == (TreeStateFacts {
        own_mtime: saved_mtime(saved.metadata),
        tree: restored_tree(saved.proto),
        file_states: after.file_states,
        sparse_patterns: restored_patterns(saved.proto.sparse_patterns),
        watchman_clock: clock_bytes(saved.proto.watchman_clock),
        ..initial
    })
    &&& after.file_states.to_multiset() == saved.proto.file_states@.to_multiset()
    &&& saved.proto.is_file_states_sorted ==> after.file_states == saved.proto.file_states@
}

impl TreeState {
    /// The state of a working copy: the saved one, if there is one. If not, it is new,
    /// and what is to be saved of it is returned as well.
    pub fn load(
        empty_tree: MergedTree,
        working_copy_path: FsPath,
        state_path: FsPath,
        tree_state_settings: &TreeStateSettings,
        support: DiskSupport,
        saved: Option<SavedTreeState>,
    ) -> (r: (TreeState, Option<TreeStateProto>))
        requires
            empty_tree@.tree_ids.len() % 2 == 1,
            saved matches Some(saved) ==> readable(saved.proto),
        ensures
            r.0.wf(),
            ({
                let initial = initial_facts(
                    empty_tree@,
                    working_copy_path@,
                    state_path@,
                    *tree_state_settings,
                    support,
                );
                match saved {
                    Some(saved) => restored(initial, r.0@, saved) && r.1 is None,
                    None => {
                        &&& r.0@ == initial
                        &&& r.1 matches Some(proto)
                        &&& stores(initial, proto)
                    },
                }
            }),
    {
        match saved {
            Some(saved) => {
                let mut wc = Self::empty(
                    empty_tree,
                    working_copy_path,
                    state_path,
                    tree_state_settings,
                    support,
                );
                wc.read(saved.proto, saved.metadata);
                (wc, None)
            },
            None => {
                let (wc, proto) = Self::init(
                    empty_tree,
                    working_copy_path,
                    state_path,
                    tree_state_settings,
                    support,
                );
                (wc, Some(proto))
            },
        }
    }

    /// What is to be saved of this state. `metadata` is that of the file that it was
    /// last saved in, if it could be read.
    pub fn save(&mut self, metadata: Option<DiskMetadata>) -> (r: TreeStateProto)
        ensures
            stores(old(self)@, r),
            final(self)@ == (TreeStateFacts {
                own_mtime: saved_mtime(metadata),
                ..old(self)@
            }),
    {
        let proto = self.to_proto();
        // update own write time before the file is replaced, so we know there is no
        // unknown data in it
        self.update_own_mtime(metadata);
        proto
    }
}

/// What was saved of a state gives it back when it is loaded with the same settings.
pub proof fn lemma_saved_then_loaded(
    initial: TreeStateFacts,
    facts: TreeStateFacts,
    saved: SavedTreeState,
    loaded: TreeStateFacts,
)
    requires
        stores(facts, saved.proto),
        file_states::sorted_entries(facts.file_states),
        valid_paths(facts.sparse_patterns),
        facts.tree.tree_ids.len() % 2 == 1,
        restored(initial, loaded, saved),
    ensures
        readable(saved.proto),
        loaded == (TreeStateFacts {
            own_mtime: saved_mtime(saved.metadata),
            tree: facts.tree,
            file_states: facts.file_states,
            sparse_patterns: facts.sparse_patterns,
            watchman_clock: facts.watchman_clock,
            ..initial
        }),
{
    lemma_stored_state(facts, saved.proto);
}

/// What was noticed in a snapshot: files that are not tracked although they could
/// be, sorted by path.
pub struct SnapshotStats {
    pub untracked_paths: Vec<(RepoPathBuf, UntrackedReason)>,
}

/// Whether one list holds the values of another, sorted by path.
pub open spec fn sorted_by_path<V>(
    sorted: Seq<(RepoPathBuf, V)>,
    values: Seq<(RepoPathBuf, V)>,
) -> bool {
    &&& sorted.to_multiset() == values.to_multiset()
    &&& forall|i: int, j: int|
        0 <= i < j < sorted.len() ==> path_model::path_order(
            (#[trigger] sorted[i]).0@,
            (#[trigger] sorted[j]).0@,
        ) == Order::Less
}

/// Whether a path is part of the working copy with the new patterns, and was not
/// with the old ones.
pub open spec fn added_by(old_patterns: Seq<Seq<char>>, new_patterns: Seq<Seq<char>>, path: Seq<
    char,
>) -> bool {
    matchers::in_prefixes(new_patterns, path) && !matchers::in_prefixes(old_patterns, path)
}

/// What changes with the sparse patterns is what is added and what is removed. A path
/// is never both.
pub proof fn lemma_sparse_change(
    old_patterns: Seq<Seq<char>>,
    new_patterns: Seq<Seq<char>>,
    path: Seq<char>,
)
    ensures
        !(added_by(old_patterns, new_patterns, path) && added_by(new_patterns, old_patterns, path)),
        matchers::in_prefixes(new_patterns, path) <==> {
            ||| added_by(old_patterns, new_patterns, path)
            ||| matchers::in_prefixes(old_patterns, path) && !added_by(
                new_patterns,
                old_patterns,
                path,
            )
        },
{
}

/// The file states after two updates in a row.
pub open spec fn twice_merged_state(
    before: Seq<FileStateEntry>,
    first: TreeUpdate,
    second: TreeUpdate,
    path: Seq<char>,
) -> Option<FileState> {
    if file_states_map::changes_path(second.changed_file_states@, path) {
        Some(file_states_map::changed_state(second.changed_file_states@, path))
    } else if second.deleted_files@.contains(path) {
        None
    } else {
        file_states_map::merged_state(
            before,
            first.changed_file_states@,
            first.deleted_files@,
            path,
        )
    }
}

/// Whether file states are those from before with the changes of an update.
pub open spec fn merged_files(
    before: Seq<FileStateEntry>,
    after: Seq<FileStateEntry>,
    changed: Seq<(RepoPathBuf, FileState)>,
    deleted: Seq<Seq<char>>,
) -> bool {
    forall|path: Seq<char>|
        file_states::lookup(after, path) == #[trigger] file_states_map::merged_state(
            before,
            changed,
            deleted,
            path,
        )
}

/// Whether a state comes from another by checking out a tree with the given update.
pub open spec fn checked_out(
    before: TreeStateFacts,
    after: TreeStateFacts,
    new_tree: backend::TreeIdsAndLabels,
    update: TreeUpdate,
) -> bool {
    &&& after == (TreeStateFacts { tree: new_tree, file_states: after.file_states, ..before })
    &&& merged_files(
        before.file_states,
        after.file_states,
        update.changed_file_states@,
        update.deleted_files@,
    )
}

/// Whether a state comes from another by replacing the sparse patterns, with the given
/// updates.
pub open spec fn sparse_patterns_replaced(
    before: TreeStateFacts,
    after: TreeStateFacts,
    sparse_patterns: Seq<Seq<char>>,
    added: TreeUpdate,
    removed: TreeUpdate,
) -> bool {
    &&& after == (TreeStateFacts { sparse_patterns, file_states: after.file_states, ..before })
    &&& forall|path: Seq<char>|
        file_states::lookup(after.file_states, path) == #[trigger] twice_merged_state(
            before.file_states,
            added,
            removed,
            path,
        )
}

/// Whether a state comes from another by a reset. `known` is what is known of the files.
pub open spec fn was_reset(
    before: TreeStateFacts,
    after: TreeStateFacts,
    known: Seq<FileStateEntry>,
    new_tree: backend::TreeIdsAndLabels,
    diff: Seq<(RepoPathBuf, MergedTreeValue)>,
) -> bool {
    &&& after == (TreeStateFacts { tree: new_tree, file_states: after.file_states, ..before })
    &&& forall|i: int|
        0 <= i < diff.len() ==> file_states::lookup(after.file_states, (#[trigger] diff[i]).0@)
            == reset::reset_state(
            before.platform,
            before.exec_policy,
            known,
            diff[i].0@,
            diff[i].1@,
        )
    &&& forall|path: Seq<char>|
        !#[trigger] snapshot_output::lists_path(diff, path) ==> file_states::lookup(
            after.file_states,
            path,
        ) == file_states::lookup(known, path)
}

/// Whether a state comes from another by a snapshot that found `output`.
///
/// Since untracked paths aren't cached in the tree state, we'll need to rescan the
/// working directory changes to report or track them later. The clock stays as it was
/// then.
pub open spec fn snapshotted(
    before: TreeStateFacts,
    after: TreeStateFacts,
    output: SnapshotOutput,
    new_tree: backend::TreeIdsAndLabels,
    watchman_clock: Option<WatchmanClock>,
) -> bool {
    &&& after == (TreeStateFacts {
        tree: new_tree,
        file_states: after.file_states,
        watchman_clock: if output.untracked_paths@.len() == 0 || watchman_clock is None {
            clock_bytes(watchman_clock)
        } else {
            before.watchman_clock
        },
        ..before
    })
    &&& merged_files(
        before.file_states,
        after.file_states,
        output.file_states@,
        output.deleted_files@,
    )
}

/// Whether a state has to be saved after a snapshot that found `output`.
pub open spec fn dirty_after_snapshot(
    before: TreeStateFacts,
    output: SnapshotOutput,
    new_tree: backend::TreeIdsAndLabels,
) -> bool {
    ||| !(before.fsmonitor_settings is Disabled)
    ||| output.deleted_files@.len() > 0
    ||| output.file_states@.len() > 0
    ||| new_tree != before.tree
}

impl TreeState {
    /// Takes over what an update of the files did. `resort` tells that paths were
    /// not visited in order.
    pub fn apply_update(&mut self, update: TreeUpdate, resort: bool) -> (r: CheckoutStats)
        requires
            old(self).wf(),
            update.wf(),
            resort || file_states_map::sorted_changes(update.changed_file_states@),
        ensures
            final(self).wf(),
            r == update.stats,
            final(self)@ == (TreeStateFacts {
                file_states: final(self)@.file_states,
                ..old(self)@
            }),
            merged_files(
                old(self)@.file_states,
                final(self)@.file_states,
                update.changed_file_states@,
                update.deleted_files@,
            ),
    {
        update.finish(&mut self.file_states, resort)
    }

    /// Takes over that the files were updated from the current tree to a new one.
    pub fn check_out(&mut self, new_tree: &MergedTree, update: TreeUpdate, resort: bool) -> (r:
        CheckoutStats)
        requires
            old(self).wf(),
            new_tree@.tree_ids.len() % 2 == 1,
            update.wf(),
            resort || file_states_map::sorted_changes(update.changed_file_states@),
        ensures
            final(self).wf(),
            r == update.stats,
            checked_out(old(self)@, final(self)@, new_tree@, update),
    {
        let stats = self.apply_update(update, resort);
        self.tree = new_tree.duplicate();
        stats
    }

    /// Whether a path is to be written when the sparse patterns are replaced.
    pub fn is_added_by(&self, sparse_patterns: &Vec<RepoPathBuf>, path: RepoPath<'_>) -> (r: bool)
        ensures
            r == added_by(
                self@.sparse_patterns,
                checkout::path_list(sparse_patterns@),
                path@,
            ),
    {
        matchers::matches_prefixes(sparse_patterns, path) && !matchers::matches_prefixes(
            &self.sparse_patterns,
            path,
        )
    }

    /// Whether a path is to be removed when the sparse patterns are replaced.
    pub fn is_removed_by(&self, sparse_patterns: &Vec<RepoPathBuf>, path: RepoPath<'_>) -> (r: bool)
        ensures
            r == added_by(
                checkout::path_list(sparse_patterns@),
                self@.sparse_patterns,
                path@,
            ),
    {
        matchers::matches_prefixes(&self.sparse_patterns, path) && !matchers::matches_prefixes(
            sparse_patterns,
            path,
        )
    }

    /// Takes over that the sparse patterns were replaced: `added` is the update that
    /// wrote the files that are new to the working copy, and `removed` the one that
    /// removed those that are no longer part of it. `resort` tells that one of them did
    /// not visit paths in order.
    pub fn set_sparse_patterns(
        &mut self,
        sparse_patterns: Vec<RepoPathBuf>,
        added: TreeUpdate,
        removed: TreeUpdate,
        resort: bool,
    ) -> (r: CheckoutStats)
        requires
            old(self).wf(),
            valid_paths(checkout::path_list(sparse_patterns@)),
            added.wf(),
            resort || file_states_map::sorted_changes(added.changed_file_states@),
            added.stats.updated_files == 0,
            added.stats.removed_files == 0,
            removed.wf(),
            resort || file_states_map::sorted_changes(removed.changed_file_states@),
            removed.stats.updated_files == 0,
            removed.stats.added_files == 0,
            removed.stats.skipped_files == 0,
        ensures
            final(self).wf(),
            r == (CheckoutStats {
                updated_files: 0,
                added_files: added.stats.added_files,
                removed_files: removed.stats.removed_files,
                skipped_files: added.stats.skipped_files,
            }),
            sparse_patterns_replaced(
                old(self)@,
                final(self)@,
                checkout::path_list(sparse_patterns@),
                added,
                removed,
            ),
    {
        let ghost before = self@.file_states;
        let added_stats = self.apply_update(added, resort);
        let ghost between = self@.file_states;
        let removed_stats = self.apply_update(removed, resort);
        self.sparse_patterns = sparse_patterns;
        proof {
            assert forall|path: Seq<char>|
                file_states::lookup(self@.file_states, path) == #[trigger] twice_merged_state(
                    before,
                    added,
                    removed,
                    path,
                ) by {
                let first = file_states_map::merged_state(
                    before,
                    added.changed_file_states@,
                    added.deleted_files@,
                    path,
                );
                let second = file_states_map::merged_state(
                    between,
                    removed.changed_file_states@,
                    removed.deleted_files@,
                    path,
                );
                assert(file_states::lookup(between, path) == first);
            }
        }
        CheckoutStats {
            updated_files: 0,
            added_files: added_stats.added_files,
            removed_files: removed_stats.removed_files,
            skipped_files: added_stats.skipped_files,
        }
    }

    /// Takes over another tree without touching files. `diff` lists what it has
    /// where it differs from the current tree.
    pub fn reset(&mut self, new_tree: &MergedTree, diff: Vec<(RepoPathBuf, MergedTreeValue)>)
        requires
            old(self).wf(),
            new_tree@.tree_ids.len() % 2 == 1,
            reset::file_diff(diff@),
        ensures
            final(self).wf(),
            was_reset(
                old(self)@,
                final(self)@,
                old(self)@.file_states,
                new_tree@,
                diff@,
            ),
    {
        let ghost list = diff@;
        let ghost before = self@;
        let changes = reset::reset_changes(
            self.platform,
            self.exec_policy,
            self.file_states.all(),
            diff,
        );
        let ghost changed = changes.changed_file_states@;
        let ghost deleted = changes.deleted_files@;
        self.file_states.merge_in(changes.changed_file_states, &changes.deleted_files);
        self.tree = new_tree.duplicate();
        proof {
            assert forall|i: int| 0 <= i < list.len() implies file_states::lookup(
                self@.file_states,
                (#[trigger] list[i]).0@,
            ) == reset::reset_state(
                before.platform,
                before.exec_policy,
                before.file_states,
                list[i].0@,
                list[i].1@,
            ) by {
                let merged = file_states_map::merged_state(
                    before.file_states,
                    changed,
                    deleted,
                    list[i].0@,
                );
            }
            assert forall|path: Seq<char>|
                !#[trigger] snapshot_output::lists_path(list, path) implies file_states::lookup(
                self@.file_states,
                path,
            ) == file_states::lookup(before.file_states, path) by {
                let merged = file_states_map::merged_state(
                    before.file_states,
                    changed,
                    deleted,
                    path,
                );
            }
        }
    }

    /// Takes over another tree, and forgets what is known of the files. `diff` lists
    /// what the tree has.
    pub fn recover(
        &mut self,
        empty_tree: MergedTree,
        new_tree: &MergedTree,
        diff: Vec<(RepoPathBuf, MergedTreeValue)>,
    )
        requires
            old(self).wf(),
            empty_tree@.tree_ids.len() % 2 == 1,
            new_tree@.tree_ids.len() % 2 == 1,
            reset::file_diff(diff@),
        ensures
            final(self).wf(),
            was_reset(old(self)@, final(self)@, Seq::empty(), new_tree@, diff@),
    {
        self.file_states.clear();
        self.tree = empty_tree;
        self.reset(new_tree, diff);
    }

    /// Matches the files that a snapshot looks at.
    pub fn snapshot_matcher<'a>(&'a self, scan: &'a FsmonitorScan) -> (r: SnapshotMatcher<'a>)
        requires
            scan.matcher matches Some(matcher) ==> matcher.wf(),
        ensures
            r.wf(),
            checkout::path_list(r.sparse_patterns@) == self@.sparse_patterns,
            match scan.matcher {
                Some(matcher) => r.fsmonitor == Some(&matcher),
                None => r.fsmonitor is None,
            },
    {
        SnapshotMatcher {
            sparse_patterns: &self.sparse_patterns,
            fsmonitor: match &scan.matcher {
                Some(matcher) => Some(matcher),
                None => None,
            },
        }
    }

    /// The rules by which a snapshot looks at files.
    pub fn snapshotter<'a>(&'a self, scan: &'a FsmonitorScan, max_new_file_size: u64) -> (r:
        FileSnapshotter<'a>)
        requires
            scan.matcher matches Some(matcher) ==> matcher.wf(),
        ensures
            r.matcher.wf(),
            checkout::path_list(r.matcher.sparse_patterns@) == self@.sparse_patterns,
            match scan.matcher {
                Some(matcher) => r.matcher.fsmonitor == Some(&matcher),
                None => r.matcher.fsmonitor is None,
            },
            r.platform == self@.platform,
            r.exec_policy == self@.exec_policy,
            r.symlink_support == self@.symlink_support,
            r.own_mtime == self@.own_mtime,
            r.max_new_file_size == max_new_file_size,
    {
        FileSnapshotter {
            matcher: self.snapshot_matcher(scan),
            platform: self.platform,
            exec_policy: self.exec_policy,
            symlink_support: self.symlink_support,
            own_mtime: self.own_mtime,
            max_new_file_size,
        }
    }

    /// Whether a filesystem monitor is used. Its clock then has to be saved after
    /// each snapshot.
    fn uses_fsmonitor(&self) -> (r: bool)
        ensures
            r == !(self@.fsmonitor_settings is Disabled),
    {
        match self.fsmonitor_settings {
            FsmonitorSettings::Disabled => false,
            _ => true,
        }
    }

    /// Finishes a snapshot that has no files to look at. Returns whether the state
    /// has to be saved.
    pub fn skip_snapshot(&mut self, watchman_clock: Option<WatchmanClock>) -> (r: (
        bool,
        SnapshotStats,
    ))
        requires
            old(self).wf(),
        ensures
            final(self).wf(),
            final(self)@ == (TreeStateFacts {
                watchman_clock: clock_bytes(watchman_clock),
                ..old(self)@
            }),
            r.0 == !(old(self)@.fsmonitor_settings is Disabled),
            r.1.untracked_paths@.len() == 0,
    {
        let is_dirty = self.uses_fsmonitor();
        // No need to load the current tree, etc.
        self.watchman_clock = watchman_clock;
        (is_dirty, SnapshotStats { untracked_paths: Vec::new() })
    }

    /// Finishes a snapshot: `new_tree` is the current tree with what was found.
    /// Returns whether the state has to be saved.
    pub fn finish_snapshot(
        &mut self,
        output: SnapshotOutput,
        new_tree: MergedTree,
        watchman_clock: Option<WatchmanClock>,
    ) -> (r: (bool, SnapshotStats))
        requires
            old(self).wf(),
            output.wf(),
            new_tree@.tree_ids.len() % 2 == 1,
        ensures
            final(self).wf(),
            snapshotted(old(self)@, final(self)@, output, new_tree@, watchman_clock),
            r.0 == dirty_after_snapshot(old(self)@, output, new_tree@),
            sorted_by_path(r.1.untracked_paths@, output.untracked_paths@),
    {
        let ghost before = self@.file_states;
        let ghost found = output.file_states@;
        let ghost deleted = output.deleted_files@;
        let mut is_dirty = self.uses_fsmonitor();
        let mut untracked_paths = output.untracked_paths;
        file_states_map::sort_by_path(&mut untracked_paths);
        proof {
            assert forall|i: int, j: int| 0 <= i < j < untracked_paths@.len() implies
                path_model::path_order(
                (#[trigger] untracked_paths@[i]).0@,
                (#[trigger] untracked_paths@[j]).0@,
            ) == Order::Less by {
                assert(path_model::path_order(
                    untracked_paths@[i].key(),
                    untracked_paths@[j].key(),
                ) == Order::Less);
            }
        }
        let stats = SnapshotStats { untracked_paths };
        if !output.deleted_files.is_empty() {
            is_dirty = true;
        }
        let mut changed_file_states = output.file_states;
        file_states_map::sort_by_path(&mut changed_file_states);
        if changed_file_states.len() > 0 {
            is_dirty = true;
        }
        let ghost sorted = changed_file_states@;
        proof {
            file_states_map::lemma_sorted_keys(sorted);
            found.to_multiset_ensures();
            sorted.to_multiset_ensures();
        }
        self.file_states.merge_in(changed_file_states, &output.deleted_files);
        proof {
            assert forall|path: Seq<char>|
                file_states::lookup(self@.file_states, path)
                    == #[trigger] file_states_map::merged_state(before, found, deleted, path) by {
                file_states_map::lemma_same_changes(found, sorted, path);
                let merged = file_states_map::merged_state(before, sorted, deleted, path);
            }
        }
        if !new_tree.same_as(&self.tree) {
            is_dirty = true;
        }
        self.tree = new_tree;
        if stats.untracked_paths.len() == 0 || watchman_clock.is_none() {
            self.watchman_clock = watchman_clock;
        }
        proof {
            output.untracked_paths@.to_multiset_ensures();
            stats.untracked_paths@.to_multiset_ensures();
        }
        (is_dirty, stats)
    }
}

/// After a reset, a file is tracked if the new tree has it where it differs, or else if
/// it was known before.
pub proof fn lemma_reset_file(
    before: TreeStateFacts,
    after: TreeStateFacts,
    known: Seq<FileStateEntry>,
    new_tree: backend::TreeIdsAndLabels,
    diff: Seq<(RepoPathBuf, MergedTreeValue)>,
    path: Seq<char>,
)
    requires
        was_reset(before, after, known, new_tree, diff),
        reset::file_diff(diff),
    ensures
        file_states::lookup(after.file_states, path) is Some <==> if snapshot_output::lists_path(
            diff,
            path,
        ) {
            !reset::removes_path(diff, path)
        } else {
            file_states::lookup(known, path) is Some
        },
{
    if snapshot_output::lists_path(diff, path) {
        let i = choose|i: int| 0 <= i < diff.len() && (#[trigger] diff[i]).0@ == path;
        if reset::removes_path(diff, path) {
            let j = choose|j: int|
                0 <= j < diff.len() && (#[trigger] diff[j]).0@ == path && backend::absent(
                    diff[j].1@,
                );
            assert(diff[i].key() == diff[j].key());
        } else {
            assert(!backend::absent(diff[i].1@));
        }
    }
}

/// After the state was recovered, the tracked files are exactly those that the tree has.
pub proof fn lemma_recovered_files(
    before: TreeStateFacts,
    after: TreeStateFacts,
    new_tree: backend::TreeIdsAndLabels,
    diff: Seq<(RepoPathBuf, MergedTreeValue)>,
    path: Seq<char>,
)
    requires
        was_reset(before, after, Seq::empty(), new_tree, diff),
        reset::file_diff(diff),
    ensures
        file_states::lookup(after.file_states, path) is Some <==> {
            &&& snapshot_output::lists_path(diff, path)
            &&& !reset::removes_path(diff, path)
        },
{
    lemma_reset_file(before, after, Seq::empty(), new_tree, diff, path);
    assert(file_states::lookup(Seq::empty(), path) is None);
}

/// A snapshot that finds no changes leaves everything as it was, and nothing has to be
/// saved where no filesystem monitor is used.
pub proof fn lemma_nothing_found(
    before: TreeStateFacts,
    after: TreeStateFacts,
    output: SnapshotOutput,
    path: Seq<char>,
)
    requires
        snapshotted(before, after, output, before.tree, None),
        output.file_states@.len() == 0,
        output.deleted_files@.len() == 0,
        before.fsmonitor_settings is Disabled,
    ensures
        !dirty_after_snapshot(before, output, before.tree),
        file_states::lookup(after.file_states, path) == file_states::lookup(
            before.file_states,
            path,
        ),
        after.tree == before.tree,
        after.sparse_patterns == before.sparse_patterns,
{
    assert(file_states::lookup(after.file_states, path) == file_states_map::merged_state(
        before.file_states,
        output.file_states@,
        output.deleted_files@,
        path,
    ));
}

} // verus!
