//! Feature files (`features/<name>.toml`): which names are valid, where a
//! feature's file lives, and which features a directory holds.
use vstd::prelude::*;

use crate::error::KaizenError;
use crate::fs::FileSystem;
use crate::path::{sort_dedup_paths, sorted_unique_paths};
use crate::text::{chars_of, join_path_str, path_join, string_views, text_lt, lemma_text_lt_asymmetric, lemma_text_lt_transitive};

verus! {

/// The `[meta]` section of a feature file.
#[derive(Debug, Clone, Default)]
pub struct MetaSection {
    pub description: Option<String>,
}

/// A character allowed in a feature name.
pub open spec fn name_char(c: char) -> bool {
    ('a' <= c && c <= 'z') || ('A' <= c && c <= 'Z') || ('0' <= c && c <= '9') || c == '-' || c == '_'
}

/// A feature name: non-empty, made of ASCII letters, digits, `-` and `_`
/// (so no path can be smuggled in).
pub open spec fn valid_feature_name(name: Seq<char>) -> bool {
    name.len() > 0 && forall|i: int| 0 <= i < name.len() ==> name_char(#[trigger] name[i])
}

pub fn is_valid_feature_name(name: &str) -> (b: bool)
    ensures
        b == valid_feature_name(name@),
{
    let c = chars_of(name);
    if c.len() == 0 {
        return false;
    }
    let mut i: usize = 0;
    while i < c.len()
        invariant
            0 <= i <= c@.len(),
            c@ == name@,
            forall|k: int| 0 <= k < i ==> name_char(#[trigger] c@[k]),
        decreases c@.len() - i,
    {
        let ch = c[i];
        let ok = ('a' <= ch && ch <= 'z') || ('A' <= ch && ch <= 'Z') || ('0' <= ch && ch <= '9') || ch == '-'
            || ch == '_';
        if !ok {
            return false;
        }
        i = i + 1;
    }
    true
}

/// The file of feature `name` in `dir`, or `InvalidFeatureName`.
pub fn validated_path(dir: &str, name: &str) -> (r: Result<String, KaizenError>)
    ensures
        valid_feature_name(name@) <==> r is Ok,
        r matches Ok(p) ==> p@ == path_join(dir@, name@ + ".toml"@),
        r matches Err(e) ==> e matches KaizenError::InvalidFeatureName { name: n } && n@ == name@,
{
    if !is_valid_feature_name(name) {
        return Err(KaizenError::InvalidFeatureName { name: String::from_str(name) });
    }
    let mut file = String::from_str(name);
    file.append(".toml");
    Ok(join_path_str(dir, file.as_str()))
}

/// The file to read for feature `name` in `dir`: an invalid name is
/// `InvalidFeatureName` before the filesystem is asked anything (so no path
/// outside `dir` is looked at); else the feature's file when it exists,
/// none when it does not.
pub fn feature_file(fs: &dyn FileSystem, dir: &str, name: &str) -> (r: Result<Option<String>, KaizenError>)
    ensures
        valid_feature_name(name@) <==> r is Ok,
        r matches Err(e) ==> e matches KaizenError::InvalidFeatureName { name: n } && n@ == name@,
        r matches Ok(Some(p)) ==> p@ == path_join(dir@, name@ + ".toml"@),
        valid_feature_name(name@) ==> fs.answers_exists(path_join(dir@, name@ + ".toml"@), r matches Ok(Some(_))),
{
    match validated_path(dir, name) {
        Err(e) => Err(e),
        Ok(path) => {
            if fs.path_exists(path.as_str()) {
                Ok(Some(path))
            } else {
                Ok(None)
            }
        },
    }
}

/// The file of a feature that must exist: a missing one is
/// `FeatureNotFound` naming the feature; other outcomes pass through.
pub fn required_feature_file(found: Result<Option<String>, KaizenError>, name: &str) -> (r: Result<String, KaizenError>)
    ensures
        found matches Ok(Some(p)) ==> r == Ok::<String, KaizenError>(p),
        found matches Ok(None) ==> (r matches Err(KaizenError::FeatureNotFound { name: n }) && n@ == name@),
        found matches Err(e) ==> r == Err::<String, KaizenError>(e),
{
    match found {
        Ok(Some(p)) => Ok(p),
        Ok(None) => Err(KaizenError::FeatureNotFound { name: String::from_str(name) }),
        Err(e) => Err(e),
    }
}

// ── Listing ─────────────────────────────────────────────────────────────────

/// `Path::extension` of a Unix path (rules of `std::path`).
pub uninterp spec fn path_extension(p: Seq<char>) -> Option<Seq<char>>;

/// `Path::file_stem` of a Unix path (rules of `std::path`).
pub uninterp spec fn path_file_stem(p: Seq<char>) -> Option<Seq<char>>;

/// Calls `Path::new(p).extension()` and reads it as text; the result is
/// named by `path_extension`, nothing more is claimed about it.
#[verifier::external_body]
pub(crate) fn extension_of(p: &str) -> (r: Option<String>)
    ensures
        r matches Some(e) ==> path_extension(p@) == Some(e@),
        r is None ==> path_extension(p@) is None,
{
    std::path::Path::new(p).extension().map(|e| e.to_string_lossy().into_owned())
}

/// Calls `Path::new(p).file_stem()` and reads it as text; the result is
/// named by `path_file_stem`, nothing more is claimed about it.
#[verifier::external_body]
pub(crate) fn file_stem_of(p: &str) -> (r: Option<String>)
    ensures
        r matches Some(s) ==> path_file_stem(p@) == Some(s@),
        r is None ==> path_file_stem(p@) is None,
{
    std::path::Path::new(p).file_stem().map(|s| s.to_string_lossy().into_owned())
}

/// Calls `std::io::Error::kind` and compares it with `NotFound`.
#[verifier::external_body]
fn io_not_found(e: &std::io::Error) -> (b: bool) {
    e.kind() == std::io::ErrorKind::NotFound
}

/// The feature names among directory entries: the stems of the `.toml`
/// files whose stem is a valid feature name, in entry order.
pub open spec fn feature_entries(paths: Seq<Seq<char>>) -> Seq<Seq<char>>
    decreases paths.len(),
{
    if paths.len() == 0 {
        Seq::empty()
    } else {
        let prev = feature_entries(paths.drop_last());
        let p = paths.last();
        if path_extension(p) == Some("toml"@) && path_file_stem(p) is Some && valid_feature_name(
            path_file_stem(p)->0,
        ) {
            prev.push(path_file_stem(p)->0)
        } else {
            prev
        }
    }
}

/// `x` inserted before the first element above it.
pub open spec fn insert_text(s: Seq<Seq<char>>, x: Seq<char>) -> Seq<Seq<char>>
    decreases s.len(),
{
    if s.len() == 0 {
        seq![x]
    } else if text_lt(x, s[0]) {
        seq![x] + s
    } else {
        seq![s[0]] + insert_text(s.drop_first(), x)
    }
}

/// Names sorted by increasing text (insertion sort; `Vec::sort` gives the
/// same list).
pub open spec fn sort_texts(s: Seq<Seq<char>>) -> Seq<Seq<char>>
    decreases s.len(),
{
    if s.len() == 0 {
        Seq::empty()
    } else {
        insert_text(sort_texts(s.drop_last()), s.last())
    }
}

pub proof fn lemma_insert_text_at(s: Seq<Seq<char>>, x: Seq<char>, pos: int)
    requires
        0 <= pos <= s.len(),
        forall|j: int| 0 <= j < pos ==> !text_lt(x, #[trigger] s[j]),
        pos < s.len() ==> text_lt(x, s[pos]),
    ensures
        insert_text(s, x) == s.insert(pos, x),
    decreases s.len(),
{
    if s.len() == 0 {
        assert(s.insert(pos, x) =~= seq![x]);
    } else if pos == 0 {
        assert(s.insert(0, x) =~= seq![x] + s);
    } else {
        let t = s.drop_first();
        assert forall|j: int| 0 <= j < pos - 1 implies !text_lt(x, #[trigger] t[j]) by {
            assert(t[j] == s[j + 1]);
        }
        if pos - 1 < t.len() {
            assert(t[pos - 1] == s[pos]);
        }
        lemma_insert_text_at(t, x, pos - 1);
        assert(s.insert(pos, x) =~= seq![s[0]] + t.insert(pos - 1, x));
    }
}

/// Sorts names by increasing text (`sort_texts`).
pub fn sort_names(input: &Vec<String>) -> (r: Vec<String>)
    ensures
        string_views(r@) == sort_texts(string_views(input@)),
{
    let ghost iv = string_views(input@);
    let mut out: Vec<String> = Vec::new();
    let mut n: usize = 0;
    assert(iv.take(0) =~= Seq::<Seq<char>>::empty());
    while n < input.len()
        invariant
            0 <= n <= input@.len(),
            iv == string_views(input@),
            string_views(out@) == sort_texts(iv.take(n as int)),
        decreases input@.len() - n,
    {
        let x = input[n].clone();
        let xc = chars_of(x.as_str());
        let mut pos: usize = 0;
        while pos < out.len()
            invariant
                0 <= pos <= out@.len(),
                xc@ == x@,
                forall|j: int| 0 <= j < pos ==> !text_lt(x@, #[trigger] string_views(out@)[j]),
            ensures
                0 <= pos <= out@.len(),
                forall|j: int| 0 <= j < pos ==> !text_lt(x@, #[trigger] string_views(out@)[j]),
                pos < out@.len() ==> text_lt(x@, string_views(out@)[pos as int]),
            decreases out@.len() - pos,
        {
            let oc = chars_of(out[pos].as_str());
            if crate::text::chars_lt(&xc, &oc) {
                break;
            }
            pos = pos + 1;
        }
        proof {
            lemma_insert_text_at(string_views(out@), x@, pos as int);
            assert(iv.take(n + 1).drop_last() =~= iv.take(n as int));
            assert(iv.take(n + 1).last() == x@);
        }
        let ghost before = string_views(out@);
        out.insert(pos, x);
        assert(string_views(out@) =~= before.insert(pos as int, x@));
        n = n + 1;
    }
    assert(iv.take(n as int) =~= iv);
    out
}

/// The feature names of a directory's entries, sorted.
pub fn feature_names(paths: &Vec<String>) -> (r: Vec<String>)
    ensures
        string_views(r@) == sort_texts(feature_entries(string_views(paths@))),
{
    let ghost pv = string_views(paths@);
    let mut names: Vec<String> = Vec::new();
    let mut i: usize = 0;
    assert(pv.take(0) =~= Seq::<Seq<char>>::empty());
    while i < paths.len()
        invariant
            0 <= i <= paths@.len(),
            pv == string_views(paths@),
            string_views(names@) == feature_entries(pv.take(i as int)),
        decreases paths@.len() - i,
    {
        let p = paths[i].as_str();
        proof {
            assert(pv.take(i + 1).drop_last() =~= pv.take(i as int));
            assert(pv.take(i + 1).last() == p@);
        }
        let is_toml = match extension_of(p) {
            Some(e) => crate::text::str_eq(e.as_str(), "toml"),
            None => false,
        };
        if is_toml {
            match file_stem_of(p) {
                Some(stem) => {
                    if is_valid_feature_name(stem.as_str()) {
                        let ghost before = string_views(names@);
                        names.push(stem);
                        assert(string_views(names@) =~= before.push(path_file_stem(p@)->0));
                    }
                },
                None => {},
            }
        }
        i = i + 1;
    }
    assert(pv.take(paths@.len() as int) =~= pv);
    sort_names(&names)
}

/// The file of a feature that must exist (`feature_file`, then
/// `required_feature_file`): an invalid name is `InvalidFeatureName`, a
/// missing file `FeatureNotFound`, both naming the feature.
pub fn existing_feature_file(fs: &dyn FileSystem, dir: &str, name: &str) -> (r: Result<String, KaizenError>)
    ensures
        !valid_feature_name(name@) ==> (r matches Err(KaizenError::InvalidFeatureName { name: n }) && n@ == name@),
        valid_feature_name(name@) ==> (r matches Ok(p) && p@ == path_join(dir@, name@ + ".toml"@)) || (r matches Err(
            KaizenError::FeatureNotFound { name: n },
        ) && n@ == name@),
{
    required_feature_file(feature_file(fs, dir, name), name)
}

/// What listing the features directory `dir` gives, from the listing the
/// filesystem returned: the sorted feature names of its entries; when the
/// directory is missing (`missing`), `FeaturesDirNotFound` naming `dir`;
/// any other error as it is.
pub open spec fn listing_result(
    dir: Seq<char>,
    listing: Result<Vec<String>, KaizenError>,
    missing: bool,
    r: Result<Vec<String>, KaizenError>,
) -> bool {
    &&& listing matches Ok(paths) ==> (r matches Ok(names) && string_views(names@) == sort_texts(
        feature_entries(string_views(paths@)),
    ))
    &&& listing is Err && missing ==> (r matches Err(KaizenError::FeaturesDirNotFound { path }) && path@ == dir)
    &&& listing is Err && !missing ==> r == listing
}

/// `listing_result`.
pub fn listing_outcome(dir: &str, listing: Result<Vec<String>, KaizenError>, missing: bool) -> (r: Result<
    Vec<String>,
    KaizenError,
>)
    ensures
        listing_result(dir@, listing, missing, r),
{
    match listing {
        Ok(paths) => Ok(feature_names(&paths)),
        Err(e) => {
            if missing {
                Err(KaizenError::FeaturesDirNotFound { path: String::from_str(dir) })
            } else {
                Err(e)
            }
        },
    }
}

/// The features of `dir`: `listing_outcome` of the listing the filesystem
/// answers for `dir`, where only an I/O error can mean that the directory
/// is missing (a not-found one).
pub fn list_features(fs: &dyn FileSystem, dir: &str) -> (r: Result<Vec<String>, KaizenError>)
    ensures
        exists|listing: Result<Vec<String>, KaizenError>, missing: bool|
            fs.answers_listing(dir@, listing) && (missing ==> listing matches Err(KaizenError::Io(_)))
                && listing_result(dir@, listing, missing, r),
{
    let listing = fs.read_dir_paths(dir);
    let ghost l = listing;
    let missing = match &listing {
        Err(KaizenError::Io(io)) => io_not_found(io),
        _ => false,
    };
    let r = listing_outcome(dir, listing, missing);
    assert(fs.answers_listing(dir@, l) && (missing ==> l matches Err(KaizenError::Io(_))) && listing_result(
        dir@,
        l,
        missing,
        r,
    ));
    r
}

// ── Laws ────────────────────────────────────────────────────────────────────

proof fn lemma_insert_text_sorted(s: Seq<Seq<char>>, x: Seq<char>)
    requires
        forall|i: int, j: int| 0 <= i < j < s.len() ==> !text_lt(#[trigger] s[j], #[trigger] s[i]),
    ensures
        forall|i: int, j: int| 0 <= i < j < insert_text(s, x).len() ==> !text_lt(
            #[trigger] insert_text(s, x)[j],
            #[trigger] insert_text(s, x)[i],
        ),
        insert_text(s, x).len() == s.len() + 1,
        forall|y: Seq<char>| #[trigger] insert_text(s, x).contains(y) <==> (s.contains(y) || y == x),
    decreases s.len(),
{
    let r = insert_text(s, x);
    if s.len() == 0 {
        assert forall|y: Seq<char>| #[trigger] r.contains(y) <==> (s.contains(y) || y == x) by {
            if y == x {
                assert(r[0] == y);
            }
        }
    } else if text_lt(x, s[0]) {
        assert forall|i: int, j: int| 0 <= i < j < r.len() implies !text_lt(#[trigger] r[j], #[trigger] r[i]) by {
            if i == 0 {
                lemma_text_lt_asymmetric(x, s[0]);
                if j > 1 {
                    assert(!text_lt(s[j - 1], s[0]));
                    if text_lt(s[j - 1], x) {
                        lemma_text_lt_transitive(s[j - 1], x, s[0]);
                    }
                }
            } else {
                assert(!text_lt(s[j - 1], s[i - 1]));
            }
        }
        assert forall|y: Seq<char>| #[trigger] r.contains(y) <==> (s.contains(y) || y == x) by {
            if r.contains(y) {
                let i = choose|i: int| 0 <= i < r.len() && r[i] == y;
                if i > 0 {
                    assert(s[i - 1] == y);
                }
            }
            if s.contains(y) {
                let i = choose|i: int| 0 <= i < s.len() && s[i] == y;
                assert(r[i + 1] == y);
            }
            if y == x {
                assert(r[0] == y);
            }
        }
    } else {
        let t = s.drop_first();
        assert forall|i: int, j: int| 0 <= i < j < t.len() implies !text_lt(#[trigger] t[j], #[trigger] t[i]) by {
            assert(!text_lt(s[j + 1], s[i + 1]));
        }
        lemma_insert_text_sorted(t, x);
        let rt = insert_text(t, x);
        assert forall|y: Seq<char>| rt.contains(y) implies !text_lt(y, s[0]) by {
            if y != x {
                let i = choose|i: int| 0 <= i < t.len() && t[i] == y;
                assert(!text_lt(s[i + 1], s[0]));
            }
        }
        assert forall|i: int, j: int| 0 <= i < j < r.len() implies !text_lt(#[trigger] r[j], #[trigger] r[i]) by {
            if i == 0 {
                assert(rt.contains(rt[j - 1]));
            } else {
                assert(!text_lt(rt[j - 1], rt[i - 1]));
            }
        }
        assert forall|y: Seq<char>| #[trigger] r.contains(y) <==> (s.contains(y) || y == x) by {
            if r.contains(y) {
                let i = choose|i: int| 0 <= i < r.len() && r[i] == y;
                if i > 0 {
                    assert(rt.contains(y));
                    if y != x {
                        let k = choose|k: int| 0 <= k < t.len() && t[k] == y;
                        assert(s[k + 1] == y);
                    }
                }
            }
            if s.contains(y) {
                let i = choose|i: int| 0 <= i < s.len() && s[i] == y;
                if i == 0 {
                    assert(r[0] == y);
                } else {
                    assert(t[i - 1] == y);
                    assert(rt.contains(y));
                    let k = choose|k: int| 0 <= k < rt.len() && rt[k] == y;
                    assert(r[k + 1] == y);
                }
            }
            if y == x {
                assert(rt.contains(y));
                let k = choose|k: int| 0 <= k < rt.len() && rt[k] == y;
                assert(r[k + 1] == y);
            }
        }
    }
}

/// Listed feature names come sorted and are the names found: the list is
/// ordered, as long as the input, and holds exactly the input's names.
pub proof fn sorted_names_law(s: Seq<Seq<char>>)
    ensures
        forall|i: int, j: int| 0 <= i < j < sort_texts(s).len() ==> !text_lt(#[trigger] sort_texts(s)[j], #[trigger] sort_texts(s)[i]),
        sort_texts(s).len() == s.len(),
        forall|y: Seq<char>| #[trigger] sort_texts(s).contains(y) <==> s.contains(y),
    decreases s.len(),
{
    if s.len() > 0 {
        let t = s.drop_last();
        sorted_names_law(t);
        lemma_insert_text_sorted(sort_texts(t), s.last());
        assert forall|y: Seq<char>| #[trigger] sort_texts(s).contains(y) <==> s.contains(y) by {
            if s.contains(y) && y != s.last() {
                let i = choose|i: int| 0 <= i < s.len() && s[i] == y;
                assert(t[i] == y);
                assert(t.contains(y));
            }
            if t.contains(y) {
                let i = choose|i: int| 0 <= i < t.len() && t[i] == y;
                assert(s[i] == y);
            }
            if y == s.last() {
                assert(s[s.len() - 1] == y);
            }
        }
    }
}


// ── Files by extension ──────────────────────────────────────────────────────

/// The entries with extension `ext`, in entry order.
pub open spec fn entries_with_extension(paths: Seq<Seq<char>>, ext: Seq<char>) -> Seq<Seq<char>>
    decreases paths.len(),
{
    if paths.len() == 0 {
        Seq::empty()
    } else {
        let prev = entries_with_extension(paths.drop_last(), ext);
        if path_extension(paths.last()) == Some(ext) {
            prev.push(paths.last())
        } else {
            prev
        }
    }
}

/// The entries of a directory listing with extension `ext`, in path order
/// (a listing holds no path twice).
pub fn files_with_extension(paths: &Vec<String>, ext: &str) -> (r: Vec<String>)
    ensures
        sorted_unique_paths(entries_with_extension(string_views(paths@), ext@), string_views(r@)),
{
    let ghost pv = string_views(paths@);
    let mut files: Vec<String> = Vec::new();
    let mut i: usize = 0;
    assert(pv.take(0) =~= Seq::<Seq<char>>::empty());
    while i < paths.len()
        invariant
            0 <= i <= paths@.len(),
            pv == string_views(paths@),
            files@.map_values(|s: String| s@) == entries_with_extension(pv.take(i as int), ext@),
        decreases paths@.len() - i,
    {
        let p = paths[i].as_str();
        proof {
            assert(pv.take(i + 1).drop_last() =~= pv.take(i as int));
            assert(pv.take(i + 1).last() == p@);
        }
        let matches = match extension_of(p) {
            Some(e) => crate::text::str_eq(e.as_str(), ext),
            None => false,
        };
        if matches {
            let ghost before = files@.map_values(|s: String| s@);
            files.push(paths[i].clone());
            assert(files@.map_values(|s: String| s@) =~= before.push(p@));
        }
        i = i + 1;
    }
    assert(pv.take(paths@.len() as int) =~= pv);
    sort_dedup_paths(&files)
}


/// A character of a feature name by its code point: an ASCII lowercase
/// letter (97-122), uppercase letter (65-90), digit (48-57), `-` (45) or
/// `_` (95).
pub open spec fn ascii_name_code(n: int) -> bool {
    (97 <= n <= 122) || (65 <= n <= 90) || (48 <= n <= 57) || n == 45 || n == 95
}

proof fn lemma_name_char_code(c: char)
    ensures
        name_char(c) <==> ascii_name_code(c as int),
{
    assert(('a' as int) == 97 && ('z' as int) == 122 && ('A' as int) == 65 && ('Z' as int) == 90);
    assert(('0' as int) == 48 && ('9' as int) == 57 && ('-' as int) == 45 && ('_' as int) == 95);
}

/// Feature names are exactly the non-empty names whose characters are all
/// ASCII letters, ASCII digits, `-` or `_` (by code point): every such name
/// is accepted, and a name holding any other character (`/`, `.`, a space,
/// a non-ASCII letter, ...) is refused.
pub proof fn feature_name_law(name: Seq<char>)
    ensures
        valid_feature_name(name) <==> name.len() > 0 && forall|i: int|
            0 <= i < name.len() ==> ascii_name_code(#[trigger] name[i] as int),
{
    assert forall|i: int| 0 <= i < name.len() implies name_char(#[trigger] name[i]) == ascii_name_code(name[i] as int) by {
        lemma_name_char_code(name[i]);
    }
}

/// Each lowercase ASCII letter `a`..`z` is a one-letter feature name, as is
/// each uppercase letter and digit.
pub proof fn single_letter_names_law(c: char)
    requires
        ascii_name_code(c as int),
    ensures
        valid_feature_name(seq![c]),
{
    lemma_name_char_code(c);
}

} // verus!
