//! A terminal viewer of the uncommitted changes of a git repository: what
//! git reports, how diffs are rendered, the state machine of the viewer and
//! what its screen shows.

pub mod app;
pub mod diff;
pub mod git;
pub mod store;
pub mod style;
pub mod syntax;
pub mod text;
pub mod ui;
pub mod width;
