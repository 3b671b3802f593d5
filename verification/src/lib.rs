//! Core logic of the modou editor: line diffs against the committed version,
//! the project file tree, git status badges, the recent-projects list and its
//! menus, the watch table of open files, the embedded terminals, the docking
//! of external terminals and the providers that launch them.

pub mod text;
pub mod edit_script;
pub mod line_diff;
pub mod git_status;
pub mod file_tree;
pub mod watch;
pub mod recent;
pub mod settings;
pub mod commands;
pub mod terminal;
pub mod provider;
pub mod docking;
pub mod dock;
