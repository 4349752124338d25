//! Errors of the library and the message shown when `chezmoi apply` fails.
use vstd::prelude::*;

use crate::text::{chars_of, contains_chars, contains_text, decimal, i64_decimal, string_of};

verus! {

/// `toml::de::Error`, carried as the source of parse errors.
#[verifier::external_type_specification]
#[verifier::external_body]
pub struct ExTomlDeError(toml::de::Error);

/// `toml::ser::Error`, carried as the source of serialisation errors.
#[verifier::external_type_specification]
#[verifier::external_body]
pub struct ExTomlSerError(toml::ser::Error);

/// `std::io::Error`, carried by I/O failures.
#[verifier::external_type_specification]
#[verifier::external_body]
pub struct ExIoError(std::io::Error);

/// Errors of kaizen operations. Paths are carried as strings.
#[derive(Debug)]
pub enum KaizenError {
    ConfigNotFound { path: String },
    ConfigParse { path: String, source: toml::de::Error },
    FeatureNotFound { name: String },
    InvalidFeatureName { name: String },
    FeaturesDirNotFound { path: String },
    FeatureParse { name: String, source: toml::de::Error },
    MergeConflict(String),
    InstallerFailed { installer: &'static str, code: Option<i32> },
    InstallerPartialFailure { count: usize, failed: Vec<String> },
    UnsupportedDotfilesBackend { backend: String },
    ChezmoidataTargetUnknown,
    TomlSerialize(toml::ser::Error),
    HookFailed { command: String, reason: String },
    ChezmoidataInitFailed { url: String, code: Option<i32> },
    GitPullFailed { path: String },
    ManifestParse { path: String, source: toml::de::Error },
    ManifestSchemaTooNew { found: u32, supported: u32 },
    ChezmoidataApplyFailed { code: Option<i32>, reason: Option<String> },
    CommandFailed { cmd: String, code: Option<i32> },
    HomeDirUnavailable,
    Io(std::io::Error),
    RankEmpty { category: String },
    RankZeroWeights,
    RankMissingScore { alternative: String, criterion: String },
    RankZeroColumn { criterion: String },
    RankParse { category: String, source: toml::de::Error },
}

/// `{:?}` rendering of an optional exit code: `None` or `Some(<n>)`.
pub open spec fn debug_code(code: Option<i32>) -> Seq<char> {
    match code {
        Some(n) => "Some("@ + decimal(n as int) + ")"@,
        None => "None"@,
    }
}

/// Message of a failed `chezmoi apply`: local changes and missing template
/// keys get a hint on how to proceed; otherwise the reason (or exit code) is
/// reported as is.
pub open spec fn apply_message(code: Option<i32>, reason: Option<Seq<char>>) -> Seq<char> {
    match reason {
        Some(r) => {
            if contains_text(r, "could not open a new TTY"@) || contains_text(
                r,
                "has changed since chezmoi"@,
            ) {
                "chezmoi apply failed: managed files have local changes\n\nRun `kaizen sync --force` (or `kaizen install --force`) to overwrite.\n\nDetails: "@
                    + r
            } else if contains_text(r, "map has no entry for key"@) {
                "chezmoi apply failed\n\n"@ + r
                    + "\n\nHint: a template references a missing feature key.\nRun 'kaizen configure' or check ~/.config/kaizen/data.toml."@
            } else {
                "chezmoi apply failed\n\n"@ + r
            }
        },
        None => "chezmoi apply failed with exit code "@ + debug_code(code),
    }
}

pub open spec fn opt_view(o: Option<String>) -> Option<Seq<char>> {
    match o {
        Some(s) => Some(s@),
        None => None,
    }
}

pub fn debug_code_text(code: &Option<i32>) -> (r: String)
    ensures
        r@ == debug_code(*code),
{
    match code {
        Some(n) => {
            let mut out = String::from_str("Some(");
            let d = i64_decimal(*n as i64);
            let ds = string_of(&d);
            out.append(ds.as_str());
            out.append(")");
            out
        },
        None => String::from_str("None"),
    }
}

/// Message of the `ChezmoidataApplyFailed` error.
pub fn chezmoi_apply_message(code: &Option<i32>, reason: &Option<String>) -> (msg: String)
    ensures
        msg@ == apply_message(*code, opt_view(*reason)),
{
    match reason {
        Some(r) => {
            let rc = chars_of(r.as_str());
            let tty = chars_of("could not open a new TTY");
            let changed = chars_of("has changed since chezmoi");
            let missing = chars_of("map has no entry for key");
            if contains_chars(&rc, &tty) || contains_chars(&rc, &changed) {
                let mut out = String::from_str(
                    "chezmoi apply failed: managed files have local changes\n\nRun `kaizen sync --force` (or `kaizen install --force`) to overwrite.\n\nDetails: ",
                );
                out.append(r.as_str());
                out
            } else if contains_chars(&rc, &missing) {
                let mut out = String::from_str("chezmoi apply failed\n\n");
                out.append(r.as_str());
                out.append(
                    "\n\nHint: a template references a missing feature key.\nRun 'kaizen configure' or check ~/.config/kaizen/data.toml.",
                );
                out
            } else {
                let mut out = String::from_str("chezmoi apply failed\n\n");
                out.append(r.as_str());
                out
            }
        },
        None => {
            let mut out = String::from_str("chezmoi apply failed with exit code ");
            let d = debug_code_text(code);
            out.append(d.as_str());
            out
        },
    }
}

} // verus!
