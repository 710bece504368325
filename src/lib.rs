//! The window tree, layout and focus engine of a tiling window manager.
//!
//! Workspaces hold trees of containers; each container owns one on-screen
//! window and arranges its children either side by side along a split axis,
//! in proportion to their portions, or as tabs. The display connection itself
//! lives outside this library: functions here take the display's answers as
//! plain values (the focused window, a freshly created frame window) and
//! return what the display has to do (placements, windows to destroy).

pub mod geometry;
pub mod layout;
pub mod container;
pub mod search;
pub mod navigation;
pub mod workspaces;
pub mod handler;
pub mod tree;
pub mod tiling;
pub mod laws;
pub mod action;
pub mod workspace;
pub mod taskbar;
