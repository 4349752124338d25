//! `kaizen/manifest.toml`: the authoritative list of user-visible features.
use vstd::prelude::*;

use crate::error::KaizenError;

verus! {

/// Newest manifest schema this library reads.
pub const CURRENT_MANIFEST_VERSION: u32 = 1;

/// Directory of kaizen's files inside the dotfiles source.
pub const KAIZEN_DIR: &'static str = "kaizen";

/// Directory of the features inside `KAIZEN_DIR`.
pub const FEATURES_SUBDIR: &'static str = "features";

/// A feature listed in the manifest.
#[derive(Debug)]
pub struct ManifestFeature {
    pub name: String,
    pub description: String,
}

/// The manifest.
#[derive(Debug)]
pub struct KaizenManifest {
    pub schema_version: u32,
    /// When non-empty, the single source of truth for feature names and
    /// descriptions (wizard UI and the keys of `data.toml`).
    pub features: Vec<ManifestFeature>,
}

/// Schema version assumed when the manifest names none.
pub fn default_version() -> (v: u32)
    ensures
        v == 1,
{
    1
}

/// A manifest newer than this library understands is refused.
pub fn validate(manifest: &KaizenManifest) -> (r: Result<(), KaizenError>)
    ensures
        manifest.schema_version <= CURRENT_MANIFEST_VERSION <==> r is Ok,
        manifest.schema_version > CURRENT_MANIFEST_VERSION ==> r == Err::<(), KaizenError>(
            KaizenError::ManifestSchemaTooNew {
                found: manifest.schema_version,
                supported: CURRENT_MANIFEST_VERSION,
            },
        ),
{
    if manifest.schema_version > CURRENT_MANIFEST_VERSION {
        return Err(
            KaizenError::ManifestSchemaTooNew {
                found: manifest.schema_version,
                supported: CURRENT_MANIFEST_VERSION,
            },
        );
    }
    Ok(())
}

} // verus!
