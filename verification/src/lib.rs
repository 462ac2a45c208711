//! Finding projects and opening them as tmux sessions: the verified core.
pub mod text;
pub mod deps;
pub mod shortcut;
pub mod shortcut_wizard;
pub mod self_update;
pub mod release;
pub mod paths;
pub mod session;
pub mod summary;
pub mod config;
pub mod config_wizard;
pub mod clock;
pub mod update_check;
pub mod cache;
pub mod projects;
