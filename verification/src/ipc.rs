pub mod events;
pub mod protocol;
pub mod request_laws;
pub mod commands;
