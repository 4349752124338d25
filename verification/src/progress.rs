//! Progress reporting interface and its in-memory implementations.
use vstd::prelude::*;

verus! {

/// Receives progress messages of long-running operations.
///
/// Reporters record what they are told, so both methods take `&mut self`.
pub trait ProgressReporter {
    /// The reporter, as it is, has last taken the step `message`. An
    /// implementation may say what that means for it; by default it may
    /// mean anything.
    closed spec fn stepped(&self, message: Seq<char>) -> bool {
        true
    }

    /// Report the step `message`.
    fn step(&mut self, message: &str)
        ensures
            final(self).stepped(message@),
    ;
    fn warn(&mut self, message: &str);
}

/// Reporter that discards every message.
pub struct NoopReporter;

impl ProgressReporter for NoopReporter {
    fn step(&mut self, message: &str) {
    }

    fn warn(&mut self, message: &str) {
    }
}

/// Reporter that keeps every message, in the order received.
pub struct RecordingReporter {
    steps: Vec<String>,
    warnings: Vec<String>,
}

impl RecordingReporter {
    /// Messages passed to `step`, in order.
    pub closed spec fn step_log(&self) -> Seq<Seq<char>> {
        self.steps@.map_values(|s: String| s@)
    }

    /// Messages passed to `warn`, in order.
    pub closed spec fn warn_log(&self) -> Seq<Seq<char>> {
        self.warnings@.map_values(|s: String| s@)
    }

    pub fn new() -> (r: Self)
        ensures
            r.step_log() == Seq::<Seq<char>>::empty(),
            r.warn_log() == Seq::<Seq<char>>::empty(),
    {
        let r = RecordingReporter { steps: Vec::new(), warnings: Vec::new() };
        assert(r.step_log() =~= Seq::<Seq<char>>::empty());
        assert(r.warn_log() =~= Seq::<Seq<char>>::empty());
        r
    }

    pub fn steps(&self) -> (r: Vec<String>)
        ensures
            r@.map_values(|s: String| s@) == self.step_log(),
    {
        copy_strings(&self.steps)
    }

    pub fn warnings(&self) -> (r: Vec<String>)
        ensures
            r@.map_values(|s: String| s@) == self.warn_log(),
    {
        copy_strings(&self.warnings)
    }
}

/// Copy of a list of strings.
pub fn copy_strings(v: &Vec<String>) -> (r: Vec<String>)
    ensures
        r@.map_values(|s: String| s@) == v@.map_values(|s: String| s@),
{
    let mut r: Vec<String> = Vec::new();
    let mut i: usize = 0;
    while i < v.len()
        invariant
            0 <= i <= v.len(),
            r@.len() == i,
            forall|k: int| 0 <= k < i ==> #[trigger] r@[k]@ == v@[k]@,
        decreases v.len() - i,
    {
        let c = v[i].clone();
        r.push(c);
        i = i + 1;
    }
    assert(r@.map_values(|s: String| s@) =~= v@.map_values(|s: String| s@));
    r
}

impl ProgressReporter for RecordingReporter {
    fn step(&mut self, message: &str)
        ensures
            final(self).step_log() == old(self).step_log().push(message@),
            final(self).warn_log() == old(self).warn_log(),
    {
        self.steps.push(String::from_str(message));
        assert(self.step_log() =~= old(self).step_log().push(message@));
    }

    fn warn(&mut self, message: &str)
        ensures
            final(self).warn_log() == old(self).warn_log().push(message@),
            final(self).step_log() == old(self).step_log(),
    {
        self.warnings.push(String::from_str(message));
        assert(self.warn_log() =~= old(self).warn_log().push(message@));
    }
}

} // verus!
