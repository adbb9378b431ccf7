//! A terminal-workspace organizer: it keeps track of the tabs and panes of a
//! terminal multiplexer together with the working directory reported by each
//! pane, and derives a display name for every tab from the directories open in
//! it, abbreviating paths with the user's home directory and the root of an
//! enclosing git worktree.
//!
//! The library is pure: host interaction (renaming a tab, launching the git
//! lookup) is returned to the caller as [`state::Action`] values, and host
//! events are handed in as [`state::Event`] values.

pub mod format;
pub mod laws;
pub mod maps;
pub mod parse;
pub mod path;
pub mod state;
pub mod text;
