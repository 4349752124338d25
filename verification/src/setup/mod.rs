//! First-run setup: writing the user's `config.toml`.
pub mod chezmoi_bootstrap;
pub mod config_writer;
