//! Settings, key bindings, rules and the file that holds them.
pub mod document;
pub mod keybinds;
pub mod lua;
pub mod number_laws;
pub mod numbers;
pub mod order;
pub mod rows;
pub mod rules;
pub mod script_laws;
pub mod settings;
pub mod special;
pub mod workspaces;
pub mod writing;
pub mod writing_laws;
