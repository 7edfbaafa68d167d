//! Windows, workspaces, monitors and the rules that move focus between them.
pub mod adjacency;
pub mod adjacency_laws;
pub mod admission_laws;
pub mod agenda;
pub mod display_laws;
pub mod displays;
pub mod effects;
pub mod event_laws;
pub mod focus;
pub mod focus_laws;
pub mod geometry;
pub mod hiding_laws;
pub mod input;
pub mod layout;
pub mod layout_laws;
pub mod lifecycle;
pub mod monitor;
pub mod moving_laws;
pub mod navigation;
pub mod outside_laws;
pub mod oversize;
pub mod oversize_laws;
pub mod pointer_laws;
pub mod resize_laws;
pub mod screen_laws;
pub mod sending_laws;
pub mod stack_laws;
pub mod start_laws;
pub mod state;
pub mod state_laws;
pub mod stepping_laws;
pub mod switching;
pub mod tiling_laws;
pub mod tree;
pub mod tree_laws;
pub mod view_laws;
pub mod window;
pub mod window_event;
pub mod window_laws;
pub mod workspace;
pub mod workspace_laws;
