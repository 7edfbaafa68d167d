//! The decision logic of a tiling window manager: the window tree and its
//! geometry, workspaces, monitors, key bindings, rules and configuration.
pub mod config;
pub mod ipc;
pub mod platform;
pub mod seqs;
pub mod session;
pub mod text;
pub mod ui;
pub mod wm;
