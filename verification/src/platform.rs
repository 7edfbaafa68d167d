pub mod application;
pub mod hotkey;
pub mod border;
pub mod system_laws;
pub mod display;
pub mod workspace_observer;
pub mod window_group;
