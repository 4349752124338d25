//! Ports for package managers.
use vstd::prelude::*;

use crate::error::KaizenError;

verus! {

pub trait Installer {
    /// The installer's answer `answer` to `install(programs)`. An
    /// implementation may say which answers it gives; by default any answer
    /// may come back.
    closed spec fn answers_install(&self, programs: Seq<String>, answer: Result<(), KaizenError>) -> bool {
        true
    }

    /// Install `programs`.
    fn install(&self, programs: &[String]) -> (r: Result<(), KaizenError>)
        ensures
            self.answers_install(programs@, r),
    ;

    /// The installer's answer `answer` to `preview_install(programs)`. An
    /// implementation may say which answers it gives; by default any answer
    /// may come back.
    closed spec fn answers_preview(&self, programs: Seq<String>, answer: String) -> bool {
        true
    }

    /// The command that installing `programs` would run.
    fn preview_install(&self, programs: &[String]) -> (r: String)
        ensures
            self.answers_preview(programs@, r),
    ;
}

pub trait Updater {
    /// The updater's answer `answer` to `upgrade(programs)`. An
    /// implementation may say which answers it gives; by default any answer
    /// may come back.
    closed spec fn answers_upgrade(&self, programs: Seq<String>, answer: Result<(), KaizenError>) -> bool {
        true
    }

    /// Upgrade `programs`.
    fn upgrade(&self, programs: &[String]) -> (r: Result<(), KaizenError>)
        ensures
            self.answers_upgrade(programs@, r),
    ;

    fn preview_upgrade(&self, programs: &[String]) -> String;
}

pub trait Remover {
    fn remove(&self, programs: &[String]) -> Result<(), KaizenError>;

    fn preview_remove(&self, programs: &[String]) -> String;
}

/// A package manager that can both install and upgrade.
pub trait PackageInstaller: Installer + Updater {

}

impl<T: Installer + Updater> PackageInstaller for T {

}

} // verus!
