//! Sync backends and the steps they share.
pub mod common;
pub mod nix_rules;
pub mod workflow;
