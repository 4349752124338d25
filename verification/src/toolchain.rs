//! Interface to dev-toolchain management (mise or equivalent).
use vstd::prelude::*;

use crate::error::KaizenError;

verus! {

/// A labelled step shown in dry-run / preview output.
#[derive(Debug, Clone)]
pub struct ToolStep {
    pub label: String,
    pub command: String,
}

/// Installs and upgrades developer tools.
pub trait DevToolsManager {
    /// The manager's answer `answer` to `install_step`. An implementation
    /// may say which answers it gives; by default any answer may come back
    /// (likewise for `answers_install`).
    closed spec fn answers_step(&self, answer: Option<ToolStep>) -> bool {
        true
    }

    /// Preview step for a dry run; `None` when the tool is unavailable.
    fn install_step(&self) -> (r: Option<ToolStep>)
        ensures
            self.answers_step(r),
    ;

    /// The manager's answer `answer` to `install(dry_run)`.
    closed spec fn answers_install(&self, dry_run: bool, answer: Result<(), KaizenError>) -> bool {
        true
    }

    /// Install the tools. No-op when `dry_run`.
    fn install(&self, dry_run: bool) -> (r: Result<(), KaizenError>)
        ensures
            self.answers_install(dry_run, r),
    ;

    /// The manager's answer `answer` to `upgrade(tools, dry_run)`.
    closed spec fn answers_upgrade(&self, tools: Seq<String>, dry_run: bool, answer: Result<(), KaizenError>) -> bool {
        true
    }

    /// Upgrade `tools`. No-op when `dry_run` or `tools` is empty.
    fn upgrade(&self, tools: &[String], dry_run: bool) -> (r: Result<(), KaizenError>)
        ensures
            self.answers_upgrade(tools@, dry_run, r),
    ;
}

/// Manager for contexts without a toolchain: does nothing.
pub struct NoopDevTools;

impl DevToolsManager for NoopDevTools {
    fn install_step(&self) -> (r: Option<ToolStep>)
        ensures
            r is None,
    {
        None
    }

    fn install(&self, dry_run: bool) -> (r: Result<(), KaizenError>)
        ensures
            r is Ok,
    {
        Ok(())
    }

    fn upgrade(&self, tools: &[String], dry_run: bool) -> (r: Result<(), KaizenError>)
        ensures
            r is Ok,
    {
        Ok(())
    }
}

} // verus!
