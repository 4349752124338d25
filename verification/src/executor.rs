//! Description of external process invocations and the executor port.
use vstd::prelude::*;

use crate::error::KaizenError;
use crate::progress::copy_strings;

verus! {

/// Describes how to run a process and what output to capture.
#[derive(Debug)]
pub struct ProcessCommand {
    pub bin: String,
    pub args: Vec<String>,
    pub sudo: bool,
    pub capture_stdout: bool,
}

/// Plain view of a command: binary, arguments, sudo flag, capture flag.
pub open spec fn command_view(c: ProcessCommand) -> (Seq<char>, Seq<Seq<char>>, bool, bool) {
    (c.bin@, c.args@.map_values(|a: String| a@), c.sudo, c.capture_stdout)
}

impl ProcessCommand {
    /// Run a command, inheriting stdin/stdout/stderr.
    pub fn run(bin: &str, args: &[&str]) -> (cmd: Self)
        ensures
            cmd.bin@ == bin@,
            cmd.args@.map_values(|a: String| a@) == args@.map_values(|a: &str| a@),
            !cmd.sudo,
            !cmd.capture_stdout,
    {
        let mut owned: Vec<String> = Vec::new();
        let mut i: usize = 0;
        while i < args.len()
            invariant
                0 <= i <= args.len(),
                owned@.len() == i,
                forall|k: int| 0 <= k < i ==> #[trigger] owned@[k]@ == args@[k]@,
            decreases args.len() - i,
        {
            owned.push(String::from_str(args[i]));
            i = i + 1;
        }
        assert(owned@.map_values(|a: String| a@) =~= args@.map_values(|a: &str| a@));
        ProcessCommand { bin: String::from_str(bin), args: owned, sudo: false, capture_stdout: false }
    }

    /// Wrap the command with `sudo`.
    pub fn sudo(self) -> (cmd: Self)
        ensures
            cmd.bin == self.bin,
            cmd.args == self.args,
            cmd.sudo,
            cmd.capture_stdout == self.capture_stdout,
    {
        let mut c = self;
        c.sudo = true;
        c
    }

    /// Capture stdout instead of inheriting it.
    pub fn capturing(self) -> (cmd: Self)
        ensures
            cmd.bin == self.bin,
            cmd.args == self.args,
            cmd.sudo == self.sudo,
            cmd.capture_stdout,
    {
        let mut c = self;
        c.capture_stdout = true;
        c
    }

    /// A copy with the same contents.
    pub fn duplicate(&self) -> (cmd: Self)
        ensures
            command_view(cmd) == command_view(*self),
    {
        ProcessCommand {
            bin: self.bin.clone(),
            args: copy_strings(&self.args),
            sudo: self.sudo,
            capture_stdout: self.capture_stdout,
        }
    }
}

/// Output returned by a successful `ProcessExecutor::execute` call.
#[derive(Debug, Default)]
pub struct ProcessOutput {
    /// Captured stdout (only populated when `capture_stdout = true`).
    pub stdout: String,
}

/// Port for running OS processes.
pub trait ProcessExecutor {
    /// Execute the command and return its output; `Err` on non-zero exit.
    fn execute(&mut self, cmd: ProcessCommand) -> Result<ProcessOutput, KaizenError>;
}

/// Executor that succeeds without spawning anything.
pub struct NoopExecutor;

impl ProcessExecutor for NoopExecutor {
    fn execute(&mut self, cmd: ProcessCommand) -> (r: Result<ProcessOutput, KaizenError>)
        ensures
            r is Ok && r->Ok_0.stdout@ == Seq::<char>::empty(),
    {
        Ok(ProcessOutput { stdout: String::new() })
    }
}

/// Executor that records every command it is given and succeeds.
pub struct RecordingExecutor {
    calls: Vec<ProcessCommand>,
}

impl RecordingExecutor {
    /// Views of the commands executed so far, in order.
    pub closed spec fn log(&self) -> Seq<(Seq<char>, Seq<Seq<char>>, bool, bool)> {
        self.calls@.map_values(|c: ProcessCommand| command_view(c))
    }

    pub fn new() -> (r: Self)
        ensures
            r.log() == Seq::<(Seq<char>, Seq<Seq<char>>, bool, bool)>::empty(),
    {
        let r = RecordingExecutor { calls: Vec::new() };
        assert(r.log() =~= Seq::<(Seq<char>, Seq<Seq<char>>, bool, bool)>::empty());
        r
    }

    pub fn calls(&self) -> (r: Vec<ProcessCommand>)
        ensures
            r@.map_values(|c: ProcessCommand| command_view(c)) == self.log(),
    {
        let mut r: Vec<ProcessCommand> = Vec::new();
        let mut i: usize = 0;
        while i < self.calls.len()
            invariant
                0 <= i <= self.calls.len(),
                r@.len() == i,
                forall|k: int| 0 <= k < i ==> command_view(#[trigger] r@[k]) == command_view(self.calls@[k]),
            decreases self.calls.len() - i,
        {
            r.push(self.calls[i].duplicate());
            i = i + 1;
        }
        assert(r@.map_values(|c: ProcessCommand| command_view(c)) =~= self.log());
        r
    }

    /// Whether some executed command ran binary `bin`.
    pub fn was_called_with(&self, bin: &str) -> (b: bool)
        ensures
            b == exists|k: int| 0 <= k < self.log().len() && #[trigger] self.log()[k].0 == bin@,
    {
        let target = String::from_str(bin);
        let mut i: usize = 0;
        while i < self.calls.len()
            invariant
                0 <= i <= self.calls.len(),
                target@ == bin@,
                forall|k: int| 0 <= k < i ==> self.calls@[k].bin@ != bin@,
            decreases self.calls.len() - i,
        {
            if self.calls[i].bin.eq(&target) {
                assert(self.log()[i as int].0 == bin@);
                return true;
            }
            i = i + 1;
        }
        assert forall|k: int| 0 <= k < self.log().len() implies #[trigger] self.log()[k].0 != bin@ by {
            assert(self.log()[k].0 == self.calls@[k].bin@);
        }
        false
    }
}

impl ProcessExecutor for RecordingExecutor {
    fn execute(&mut self, cmd: ProcessCommand) -> (r: Result<ProcessOutput, KaizenError>)
        ensures
            final(self).log() == old(self).log().push(command_view(cmd)),
            r is Ok && r->Ok_0.stdout@ == Seq::<char>::empty(),
    {
        let ghost v = command_view(cmd);
        self.calls.push(cmd);
        assert(self.log() =~= old(self).log().push(v));
        Ok(ProcessOutput { stdout: String::new() })
    }
}

} // verus!
