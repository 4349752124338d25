//! User configuration (`config.toml`) and the packages kept outside features.
use vstd::prelude::*;

verus! {

/// Schema version written into new `config.toml` files.
pub const CURRENT_SCHEMA_VERSION: u32 = 1;

/// Dotfiles repository used when the user names none.
pub const DEFAULT_DOTFILES_SOURCE: &'static str = "https://github.com/Artawower/kaizen-dotfiles";

/// Whether a feature is enabled, and which of its atoms are turned off.
#[derive(Debug, Clone)]
pub struct FeatureSelection {
    pub enabled: bool,
    pub disabled_atoms: Vec<String>,
}

/// General user settings.
#[derive(Debug, Clone, Default)]
pub struct UserSettings {
    pub layout: Option<String>,
}

/// Where the dotfiles come from.
#[derive(Debug, Clone, Default)]
pub struct DotfilesConfig {
    pub backend: Option<String>,
    pub source: Option<String>,
}

/// Packages the user manages by hand, outside any feature.
#[derive(Debug, Clone, Default)]
pub struct ExtraConfig {
    pub nix_packages: Vec<String>,
    pub brew_casks: Vec<String>,
    pub brew_formulas: Vec<String>,
    pub brew_taps: Vec<String>,
}

impl ExtraConfig {
    /// No package of any kind is listed.
    pub open spec fn empty(&self) -> bool {
        &&& self.nix_packages@.len() == 0
        &&& self.brew_casks@.len() == 0
        &&& self.brew_formulas@.len() == 0
        &&& self.brew_taps@.len() == 0
    }

    pub fn is_empty(&self) -> (b: bool)
        ensures
            b == self.empty(),
    {
        self.nix_packages.len() == 0 && self.brew_casks.len() == 0 && self.brew_formulas.len() == 0
            && self.brew_taps.len() == 0
    }
}

} // verus!
