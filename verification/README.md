# working_copy

The working copy of a version control system on a local disk: paths in a repository,
the state of tracked files, checking out trees, looking for changes, line endings and
`gitattributes`, and running a command in copies of commits.

- `src/` is the library. It decides, and each decision is verified with Verus against
  the contract of its function. It does not touch the disk.
- `app/` performs what the library decides: it reads and writes files, runs commands and
  talks to the commit store and to Watchman.
- `tests/` run the library.

Where to look in `src/`:

- `path_model`, `repo_path`, `repo_path_fs`, `fs_path`, `ui_path`, `repo_path_tree`: paths
  and their order, and how they are found on a file system and shown to users.
- `ui_round_trip`: the proof that a path that is shown leads back to its file if the
  repository and the current directory have the same root, or if the repository lies on a
  drive, on a share or at a verbatim prefix of Windows. Also that exactly the paths below
  the root of the repository are read as paths in it.
- `file_state`, `file_states`, `file_states_map`, `path_set`, `proto`: what was last seen of
  each file, and how that is stored.
- `checkout`, `entry_run`, `reserved`, `reset`: updating files, one path at a time.
- `matchers`, `snapshot`, `stored_value`, `snapshot_output`, `snapshot_walk`, `symlink`:
  finding changes, and what they become in the tree.
- `tree_state`, `local_working_copy`, `settings`: the state of a working copy as a whole.
- `tracked_files`, `update_run`: the proof that the tracked files are those that the tree
  has. For a snapshot, `snapshot_walk` ends it.
- `gitattributes`, `attr_search`, `attr_loaders`, `eol`: attributes of files and line
  endings.
- `run`, `workspace_pool`, `rewrites`: running a command across commits.

The attributes themselves are matched by `gix-attributes`. The few functions of other
crates that the library calls are declared with the contracts that it relies on.
