//! Interface to running hook commands.
use vstd::prelude::*;

use crate::error::KaizenError;

verus! {

pub trait HookRunner {
    fn run(&self, commands: &[String]) -> Result<(), KaizenError>;
}

} // verus!
