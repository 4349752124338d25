//! Labels of external commands and the error a captured-stderr run returns.
use vstd::prelude::*;

use crate::text::{join, join_strs};

verus! {

/// Error returned by a command run whose stderr was captured.
#[derive(Debug)]
pub struct CapturedStderrError {
    pub cmd: String,
    pub code: Option<i32>,
    pub stderr: String,
}

/// Human-readable label of a command line: the binary, followed by the
/// arguments separated by single spaces when there are any.
pub open spec fn command_label(bin: Seq<char>, args: Seq<Seq<char>>) -> Seq<char> {
    if args.len() == 0 {
        bin
    } else {
        bin + " "@ + join(args, " "@)
    }
}

pub fn cmd_label(bin: &str, args: &[&str]) -> (label: String)
    ensures
        label@ == command_label(bin@, args@.map_values(|a: &str| a@)),
{
    if args.len() == 0 {
        String::from_str(bin)
    } else {
        let mut out = String::from_str(bin);
        out.append(" ");
        let rest = join_strs(args, " ");
        out.append(rest.as_str());
        out
    }
}

} // verus!
