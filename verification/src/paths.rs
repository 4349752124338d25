//! Interface to platform directories and tool lookup, and its standard
//! implementation.
use vstd::prelude::*;

use crate::text::{join_path_str, path_join};

verus! {

/// Platform-specific directory resolution.
pub trait PathProvider {
    fn home_dir(&self) -> Option<String>;

    /// The provider's answer `answer` to `config_dir`. An implementation
    /// may say which answers it gives; by default any answer may come back.
    closed spec fn answers_config_dir(&self, answer: Option<String>) -> bool {
        true
    }

    /// The user's configuration directory, if there is one.
    fn config_dir(&self) -> (r: Option<String>)
        ensures
            self.answers_config_dir(r),
    ;

    /// Whether `tool` is on `PATH`.
    fn is_tool_available(&self, tool: &str) -> bool;
}

/// Calls `dirs::home_dir()`; the answer depends on the machine and its
/// environment, so nothing is claimed about it.
#[verifier::external_body]
fn platform_home_dir() -> (r: Option<String>) {
    dirs::home_dir().map(|p| p.to_string_lossy().into_owned())
}

/// Calls `dirs::config_dir()`; the answer depends on the machine and its
/// environment, so nothing is claimed about it.
#[verifier::external_body]
fn platform_config_dir() -> (r: Option<String>) {
    dirs::config_dir().map(|p| p.to_string_lossy().into_owned())
}

/// Calls `which::which(tool)` and reports whether it found the binary; the
/// answer depends on `PATH` and the disk, so nothing is claimed about it.
#[verifier::external_body]
fn tool_on_path(tool: &str) -> (r: bool) {
    which::which(tool).is_ok()
}

/// The configuration directory: the platform's own, else `.config` under
/// the home directory.
pub open spec fn config_dir_of(config: Option<Seq<char>>, home: Option<Seq<char>>) -> Option<Seq<char>> {
    match config {
        Some(c) => Some(c),
        None => match home {
            Some(h) => Some(path_join(h, ".config"@)),
            None => None,
        },
    }
}

pub open spec fn opt_str(o: Option<String>) -> Option<Seq<char>> {
    match o {
        Some(s) => Some(s@),
        None => None,
    }
}

/// The configuration directory given the platform's configuration and home
/// directories (`config_dir_of`).
pub fn config_dir_from(config: Option<String>, home: Option<String>) -> (r: Option<String>)
    ensures
        opt_str(r) == config_dir_of(opt_str(config), opt_str(home)),
{
    match config {
        Some(c) => Some(c),
        None => match home {
            Some(h) => Some(join_path_str(h.as_str(), ".config")),
            None => None,
        },
    }
}

/// Directories from the `dirs` crate, tools from `which`.
pub struct StdPathProvider;

impl PathProvider for StdPathProvider {
    fn home_dir(&self) -> Option<String> {
        platform_home_dir()
    }

    fn config_dir(&self) -> Option<String> {
        let config = platform_config_dir();
        if config.is_some() {
            return config;
        }
        config_dir_from(None, platform_home_dir())
    }

    fn is_tool_available(&self, tool: &str) -> bool {
        tool_on_path(tool)
    }
}

} // verus!
