pub mod desk_laws;
pub mod editing;
pub mod rule_editing;
pub mod workspace_editing;
pub mod settings;
