//! Parts of multi-criteria ranking that need no arithmetic on scores.
use vstd::prelude::*;

use crate::error::KaizenError;
use crate::feature_store::{entries_with_extension, file_stem_of, files_with_extension, path_file_stem};
use crate::path::sorted_unique_paths;
use crate::text::string_views;

verus! {

/// Whether a criterion is to be maximised or minimised.
#[derive(Debug, Clone, Copy, PartialEq, Eq, Structural)]
pub enum Direction {
    Max,
    Min,
}

impl Direction {
    /// Lowercase name, as written in decision files.
    pub fn as_str(self) -> (s: &'static str)
        ensures
            self == Direction::Max ==> s@ == "max"@,
            self == Direction::Min ==> s@ == "min"@,
    {
        match self {
            Direction::Max => "max",
            Direction::Min => "min",
        }
    }
}

/// Label of a decision: its category, else its title, else `decision`.
pub fn category_label_of(category: &Option<String>, title: &Option<String>) -> (r: String)
    ensures
        r@ == match *category {
            Some(c) => c@,
            None => match *title {
                Some(t) => t@,
                None => "decision"@,
            },
        },
{
    match category {
        Some(c) => c.clone(),
        None => match title {
            Some(t) => t.clone(),
            None => String::from_str("decision"),
        },
    }
}


// ── Decision files ──────────────────────────────────────────────────────────

/// The `.toml` files among directory entries, in entry order.
pub open spec fn toml_entries(paths: Seq<Seq<char>>) -> Seq<Seq<char>> {
    entries_with_extension(paths, "toml"@)
}

/// The category of a decision file: its file stem, else `decision`.
pub open spec fn category_of_file(p: Seq<char>) -> Seq<char> {
    match path_file_stem(p) {
        Some(s) => s,
        None => "decision"@,
    }
}

/// The decision files of a directory's entries: the `.toml` files in path
/// order (a listing holds no path twice), each with its category.
pub fn decision_files(paths: &Vec<String>) -> (r: Vec<(String, String)>)
    ensures
        sorted_unique_paths(toml_entries(string_views(paths@)), r@.map_values(|e: (String, String)| e.0@)),
        forall|i: int| 0 <= i < r@.len() ==> (#[trigger] r@[i]).1@ == category_of_file(r@[i].0@),
{
    let sorted = files_with_extension(paths, "toml");
    let mut out: Vec<(String, String)> = Vec::new();
    let mut j: usize = 0;
    while j < sorted.len()
        invariant
            0 <= j <= sorted@.len(),
            out@.len() == j,
            forall|k: int| 0 <= k < j ==> (#[trigger] out@[k]).0@ == sorted@[k]@,
            forall|k: int| 0 <= k < j ==> (#[trigger] out@[k]).1@ == category_of_file(out@[k].0@),
        decreases sorted@.len() - j,
    {
        let f = sorted[j].clone();
        let category = match file_stem_of(f.as_str()) {
            Some(stem) => stem,
            None => String::from_str("decision"),
        };
        out.push((f, category));
        j = j + 1;
    }
    assert(out@.map_values(|e: (String, String)| e.0@) =~= sorted@.map_values(|s: String| s@));
    out
}


// ── Missing scores ──────────────────────────────────────────────────────────

/// The first criterion, in criteria order, that `keys` has no score for.
pub open spec fn first_unscored(keys: Seq<Seq<char>>, criteria: Seq<Seq<char>>) -> Option<Seq<char>>
    decreases criteria.len(),
{
    if criteria.len() == 0 {
        None
    } else if !keys.contains(criteria[0]) {
        Some(criteria[0])
    } else {
        first_unscored(keys, criteria.drop_first())
    }
}

/// An alternative: its name and the criteria it has scores for.
pub open spec fn alternative_view(a: (String, Vec<String>)) -> (Seq<char>, Seq<Seq<char>>) {
    (a.0@, string_views(a.1@))
}

/// The first (alternative, criterion) pair without a score, alternatives in
/// order and, within one, criteria in order.
pub open spec fn first_missing_score(alts: Seq<(Seq<char>, Seq<Seq<char>>)>, criteria: Seq<Seq<char>>) -> Option<
    (Seq<char>, Seq<char>),
>
    decreases alts.len(),
{
    if alts.len() == 0 {
        None
    } else {
        match first_unscored(alts[0].1, criteria) {
            Some(c) => Some((alts[0].0, c)),
            None => first_missing_score(alts.drop_first(), criteria),
        }
    }
}

fn has_key(keys: &Vec<String>, name: &str) -> (b: bool)
    ensures
        b == string_views(keys@).contains(name@),
{
    let mut i: usize = 0;
    while i < keys.len()
        invariant
            0 <= i <= keys@.len(),
            forall|k: int| 0 <= k < i ==> (#[trigger] keys@[k])@ != name@,
        decreases keys@.len() - i,
    {
        if crate::text::str_eq(keys[i].as_str(), name) {
            assert(string_views(keys@)[i as int] == name@);
            return true;
        }
        i = i + 1;
    }
    assert forall|k: int| 0 <= k < string_views(keys@).len() implies string_views(keys@)[k] != name@ by {
        assert(string_views(keys@)[k] == keys@[k]@);
    }
    false
}

fn first_unscored_exec(keys: &Vec<String>, criteria: &Vec<String>) -> (r: Option<String>)
    ensures
        opt_view(r) == first_unscored(string_views(keys@), string_views(criteria@)),
{
    let ghost cv = string_views(criteria@);
    let mut i: usize = 0;
    assert(cv.skip(0) =~= cv);
    while i < criteria.len()
        invariant
            0 <= i <= criteria@.len(),
            cv == string_views(criteria@),
            first_unscored(string_views(keys@), cv) == first_unscored(string_views(keys@), cv.skip(i as int)),
        decreases criteria@.len() - i,
    {
        assert(cv.skip(i as int)[0] == criteria@[i as int]@);
        assert(cv.skip(i as int).drop_first() =~= cv.skip(i + 1));
        if !has_key(keys, criteria[i].as_str()) {
            return Some(criteria[i].clone());
        }
        i = i + 1;
    }
    None
}

pub open spec fn opt_view(o: Option<String>) -> Option<Seq<char>> {
    match o {
        Some(s) => Some(s@),
        None => None,
    }
}

/// The first alternative and criterion without a score, if any
/// (`first_missing_score`): ranking refuses such a matrix.
pub fn missing_score(criteria: &Vec<String>, alternatives: &Vec<(String, Vec<String>)>) -> (r: Option<(String, String)>)
    ensures
        match r {
            Some((a, c)) => first_missing_score(alternatives@.map_values(|x: (String, Vec<String>)| alternative_view(x)), string_views(criteria@))
                == Some((a@, c@)),
            None => first_missing_score(alternatives@.map_values(|x: (String, Vec<String>)| alternative_view(x)), string_views(criteria@))
                is None,
        },
{
    let ghost av = alternatives@.map_values(|x: (String, Vec<String>)| alternative_view(x));
    let ghost cv = string_views(criteria@);
    let mut i: usize = 0;
    assert(av.skip(0) =~= av);
    while i < alternatives.len()
        invariant
            0 <= i <= alternatives@.len(),
            av == alternatives@.map_values(|x: (String, Vec<String>)| alternative_view(x)),
            cv == string_views(criteria@),
            first_missing_score(av, cv) == first_missing_score(av.skip(i as int), cv),
        decreases alternatives@.len() - i,
    {
        assert(av.skip(i as int)[0] == alternative_view(alternatives@[i as int]));
        assert(av.skip(i as int).drop_first() =~= av.skip(i + 1));
        match first_unscored_exec(&alternatives[i].1, criteria) {
            Some(c) => {
                return Some((alternatives[i].0.clone(), c));
            },
            None => {},
        }
        i = i + 1;
    }
    None
}


/// The checks that ranking makes before any arithmetic on scores: a matrix
/// without criteria or without alternatives is `RankEmpty` under its label
/// (`category_label_of`).
pub fn empty_matrix_error(
    category: &Option<String>,
    title: &Option<String>,
    n_criteria: usize,
    n_alternatives: usize,
) -> (r: Option<KaizenError>)
    ensures
        (n_criteria == 0 || n_alternatives == 0) <==> r is Some,
        r matches Some(e) ==> e matches KaizenError::RankEmpty { category: c } && c@ == match *category {
            Some(c) => c@,
            None => match *title {
                Some(t) => t@,
                None => "decision"@,
            },
        },
{
    if n_criteria == 0 || n_alternatives == 0 {
        Some(KaizenError::RankEmpty { category: category_label_of(category, title) })
    } else {
        None
    }
}

/// `RankMissingScore` for the first alternative and criterion without a
/// score (`missing_score`), if any.
pub fn missing_score_error(criteria: &Vec<String>, alternatives: &Vec<(String, Vec<String>)>) -> (r: Option<
    KaizenError,
>)
    ensures
        match first_missing_score(alternatives@.map_values(|x: (String, Vec<String>)| alternative_view(x)), string_views(criteria@)) {
            Some((a, c)) => r matches Some(e) && e matches KaizenError::RankMissingScore { alternative: ea, criterion: ec } && ea@ == a
                && ec@ == c,
            None => r is None,
        },
{
    match missing_score(criteria, alternatives) {
        Some((alternative, criterion)) => Some(KaizenError::RankMissingScore { alternative, criterion }),
        None => None,
    }
}

} // verus!
