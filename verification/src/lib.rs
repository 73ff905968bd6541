//! The verified core of a local working copy: repository paths, file states,
//! line-ending conversion, attribute lookup and the decisions taken when a
//! tree is checked out or a directory is snapshotted.

pub mod text;
pub mod path_model;
pub mod repo_path;
pub mod platform;
pub mod proto;
pub mod file_state;
pub mod path_set;
pub mod file_states;
pub mod file_states_map;
pub mod fs_path;
pub mod repo_path_fs;
pub mod ui_path;
pub mod ui_round_trip;
pub mod repo_path_tree;
pub mod gitattributes;
pub mod eol;
pub mod attr_search;
pub mod eol_laws;
pub mod attr_laws;
pub mod backend;
pub mod attr_loaders;
pub mod reserved;
pub mod checkout;
pub mod entry_run;
pub mod checkout_laws;
pub mod matchers;
pub mod snapshot;
pub mod stored_value;
pub mod snapshot_output;
pub mod snapshot_walk;
pub mod snapshot_laws;
pub mod walk_laws;
pub mod symlink;
pub mod settings;
pub mod reset;
pub mod tracked_files;
pub mod update_run;
pub mod tree_state;
pub mod settings_laws;
pub mod matcher_laws;
pub mod path_laws;
pub mod disk_path_laws;
pub mod file_states_laws;
pub mod local_working_copy;
pub mod working_copy_laws;
pub mod workspace_pool;
pub mod run;
pub mod rewrites;
pub mod run_laws;
