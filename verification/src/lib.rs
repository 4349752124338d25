pub mod os;
pub mod text;
pub mod chezmoi;
pub mod process;
pub mod error;
pub mod progress;
pub mod executor;
pub mod strmap;
pub mod path;
pub mod variants;
pub mod config;
pub mod setup;
pub mod bump;
pub mod manifest;
pub mod sync_backend;
pub mod container;
pub mod toolchain;
pub mod installer;
pub mod hooks;
pub mod fs;
pub mod paths;
pub mod plan;
pub mod chezmoi_client;
pub mod backends;
pub mod wizard;
pub mod engine;
pub mod steel_module;
pub mod shortcut_catalog;
pub mod toml_doc;
pub mod kaizen_data;
pub mod feature_store;
pub mod rank;
