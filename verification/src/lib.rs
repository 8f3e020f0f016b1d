//! Flux: the event timeline behind a terminal view of filesystem, Git and work
//! activity in a set of watched folders.

pub mod path;
pub mod text;
pub mod path_map;
pub mod model;
pub mod diff;
pub mod snapshot;
pub mod roots;
pub mod recovery;
pub mod watcher;
pub mod git;
pub mod classify;
pub mod git_monitor;
pub mod beads;
pub mod beads_monitor;
pub mod app;
pub mod changes;
pub mod laws;
pub mod path_laws;
pub mod event_laws;
pub mod native_laws;
pub mod screen_laws;
pub mod watch_laws;
pub mod work_laws;
pub mod repository_laws;
pub mod style;
pub mod ui;
pub mod keys;
pub mod session;
pub mod session_laws;
