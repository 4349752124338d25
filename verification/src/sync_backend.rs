//! Options and reports of the sync workflows (install, apply, update, clean).
use vstd::prelude::*;

verus! {

#[derive(Debug, Clone, Default)]
pub struct SyncOpts {
    pub dry_run: bool,
}

#[derive(Debug, Clone, Default)]
pub struct UpdateOpts {
    pub dry_run: bool,
    /// Run `nix flake update` before switching (Nix backend only).
    pub update_flake: bool,
}

#[derive(Debug, Clone, Default)]
pub struct CleanOpts {
    pub dry_run: bool,
}

#[derive(Debug, Clone, Default)]
pub struct InstallReport {
    pub steps: Vec<String>,
    pub warnings: Vec<String>,
}

#[derive(Debug, Clone, Default)]
pub struct ApplyReport {
    /// Where `data.toml` was written, if it was.
    pub data_path: Option<String>,
}

#[derive(Debug, Clone, Default)]
pub struct SyncReport {
    pub install: InstallReport,
    pub apply: ApplyReport,
}

#[derive(Debug, Clone, Default)]
pub struct UpdateReport {
    pub upgraded: Vec<String>,
    pub warnings: Vec<String>,
}

#[derive(Debug, Clone, Default)]
pub struct CleanReport {
    pub freed_bytes: Option<u64>,
    pub steps: Vec<String>,
}

/// A labelled command shown in previews.
#[derive(Debug, Clone)]
pub struct SyncStep {
    pub label: String,
    pub command: String,
}

#[derive(Debug, Clone, Default)]
pub struct SyncPreview {
    pub steps: Vec<SyncStep>,
}

} // verus!
