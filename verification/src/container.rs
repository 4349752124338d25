//! Interface to container runtime cleanup (docker or equivalent).
use vstd::prelude::*;

use crate::error::KaizenError;

verus! {

/// Cleans container runtime caches.
pub trait ContainerCleaner {
    /// The cleaner's answer `answer` to `clean_step`. An implementation may
    /// say which answers it gives; by default any answer may come back.
    closed spec fn answers_clean_step(&self, answer: Option<String>) -> bool {
        true
    }

    /// Preview step; `None` when the runtime is unavailable.
    fn clean_step(&self) -> (r: Option<String>)
        ensures
            self.answers_clean_step(r),
    ;

    /// Run container cleanup. No-op when `dry_run`.
    fn clean(&self, dry_run: bool) -> Result<(), KaizenError>;
}

/// Cleaner for contexts without a container runtime: nothing to clean.
pub struct NoopContainerCleaner;

impl ContainerCleaner for NoopContainerCleaner {
    fn clean_step(&self) -> (r: Option<String>)
        ensures
            r is None,
    {
        None
    }

    fn clean(&self, dry_run: bool) -> (r: Result<(), KaizenError>)
        ensures
            r is Ok,
    {
        Ok(())
    }
}

} // verus!
