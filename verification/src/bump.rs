//! `bump.toml`: commands that bump pinned versions, and the files to capture
//! back into the dotfiles afterwards.
use vstd::prelude::*;

use crate::text::string_views;

verus! {

/// Name of the bump manifest of a feature.
pub const BUMP_MANIFEST_FILE: &'static str = "bump.toml";

/// The steps of a feature's bump manifest.
#[derive(Debug, Clone, Default)]
pub struct BumpManifest {
    pub steps: Vec<BumpStep>,
}

/// One bump step.
#[derive(Debug, Clone)]
pub struct BumpStep {
    pub name: String,
    /// Command to run, e.g. `["mise", "upgrade", "--bump"]`.
    pub run: Vec<String>,
    /// Paths to `chezmoi re-add` after the command completes; `~` is the
    /// home directory.
    pub capture: Vec<String>,
}

/// The steps of `steps` whose name is listed in `names`, in order.
pub open spec fn steps_named(steps: Seq<BumpStep>, names: Seq<Seq<char>>) -> Seq<BumpStep>
    decreases steps.len(),
{
    if steps.len() == 0 {
        Seq::empty()
    } else {
        let prev = steps_named(steps.drop_last(), names);
        if names.contains(steps.last().name@) {
            prev.push(steps.last())
        } else {
            prev
        }
    }
}

/// The steps behind a list of references.
pub open spec fn step_refs(s: Seq<&BumpStep>) -> Seq<BumpStep> {
    s.map_values(|x: &BumpStep| *x)
}

fn name_listed(names: &[String], name: &String) -> (b: bool)
    ensures
        b == string_views(names@).contains(name@),
{
    let mut i: usize = 0;
    while i < names.len()
        invariant
            0 <= i <= names@.len(),
            forall|k: int| 0 <= k < i ==> #[trigger] names@[k]@ != name@,
        decreases names@.len() - i,
    {
        if names[i].eq(name) {
            assert(string_views(names@)[i as int] == name@);
            return true;
        }
        i = i + 1;
    }
    proof {
        if string_views(names@).contains(name@) {
            let k = choose|k: int| 0 <= k < string_views(names@).len() && string_views(names@)[k] == name@;
            assert(names@[k]@ == name@);
        }
    }
    false
}

impl BumpManifest {
    /// Steps matching `filter`; an empty filter means all steps.
    pub fn filter_steps<'a>(&'a self, filter: &[String]) -> (r: Vec<&'a BumpStep>)
        ensures
            filter@.len() == 0 ==> step_refs(r@) == self.steps@,
            filter@.len() > 0 ==> step_refs(r@) == steps_named(self.steps@, string_views(filter@)),
    {
        let ghost names = string_views(filter@);
        let mut r: Vec<&BumpStep> = Vec::new();
        let mut i: usize = 0;
        while i < self.steps.len()
            invariant
                0 <= i <= self.steps@.len(),
                names == string_views(filter@),
                filter@.len() == 0 ==> step_refs(r@) == self.steps@.take(i as int),
                filter@.len() > 0 ==> step_refs(r@) == steps_named(self.steps@.take(i as int), names),
            decreases self.steps@.len() - i,
        {
            let s = &self.steps[i];
            let ghost before = step_refs(r@);
            proof {
                assert(self.steps@.take(i + 1).drop_last() =~= self.steps@.take(i as int));
                assert(self.steps@.take(i + 1) =~= self.steps@.take(i as int).push(*s));
            }
            if filter.len() == 0 || name_listed(filter, &s.name) {
                r.push(s);
                assert(step_refs(r@) =~= before.push(*s));
            }
            i = i + 1;
        }
        assert(self.steps@.take(self.steps@.len() as int) =~= self.steps@);
        r
    }
}

} // verus!
