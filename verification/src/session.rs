//! The window manager in a running program: actions and the mouse, the
//! configuration, and the menu in the menu bar.
pub mod action_laws;
pub mod actions;
pub mod runtime;
pub mod tray;
