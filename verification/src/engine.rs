//! Engine-level decisions: where the features live, the default config
//! path, and the order in which feature categories run.
use vstd::prelude::*;

use crate::chezmoi_client::ChezmoiClient;
use crate::error::KaizenError;
use crate::fs::FileSystem;
use crate::manifest::{FEATURES_SUBDIR, KAIZEN_DIR};
use crate::paths::{opt_str, PathProvider};
use crate::progress::ProgressReporter;
use crate::strmap::StrMap;
use crate::setup::chezmoi_bootstrap::features_dir_under;
use crate::text::{
    chars_lt, chars_of, join_path_str, lemma_text_lt_asymmetric, lemma_text_lt_transitive, path_join, text_lt,
};

verus! {

/// Rank of a feature category in bump and update workflows:
/// dev, then system, then the others, then ai (tools are upgraded before
/// what depends on them).
pub open spec fn category_rank(category: Seq<char>) -> int {
    if category == "dev"@ {
        0
    } else if category == "system"@ {
        1
    } else if category == "ai"@ {
        100
    } else {
        50
    }
}

pub fn category_order(category: &str) -> (r: usize)
    ensures
        r == category_rank(category@),
{
    if crate::text::str_eq(category, "dev") {
        0
    } else if crate::text::str_eq(category, "system") {
        1
    } else if crate::text::str_eq(category, "ai") {
        100
    } else {
        50
    }
}

fn features_dir_of(source: &str) -> (r: String)
    ensures
        r@ == features_dir_under(source@),
{
    let k = join_path_str(source, KAIZEN_DIR);
    join_path_str(k.as_str(), FEATURES_SUBDIR)
}

/// Where the features live, given what was found: the explicit directory;
/// else `kaizen/features` in the chezmoi source when that is a directory;
/// else the monorepo layout `dotfiles/kaizen/features` when that is a
/// directory; else nowhere.
pub open spec fn features_dir_choice(
    explicit: Option<Seq<char>>,
    source: Option<Seq<char>>,
    source_is_dir: bool,
    monorepo_is_dir: bool,
) -> Option<Seq<char>> {
    match explicit {
        Some(d) => Some(d),
        None => if source is Some && source_is_dir {
            Some(features_dir_under(source->0))
        } else if monorepo_is_dir {
            Some(features_dir_under("dotfiles"@))
        } else {
            None
        },
    }
}

/// `r` is what a choice of features directory gives: the chosen directory,
/// or `FeaturesDirNotFound` naming `kaizen/features`.
pub open spec fn features_dir_result(choice: Option<Seq<char>>, r: Result<String, KaizenError>) -> bool {
    match choice {
        Some(p) => r matches Ok(q) && q@ == p,
        None => r matches Err(KaizenError::FeaturesDirNotFound { path }) && path@ == path_join(KAIZEN_DIR@, FEATURES_SUBDIR@),
    }
}

/// The filesystem's answers that decide the features directory: whether
/// `kaizen/features` under the source is a directory (asked only with a
/// source), then, unless that settled it, whether `dotfiles/kaizen/features`
/// is.
pub open spec fn features_dir_answers<F: FileSystem + ?Sized>(
    fs: &F,
    source: Option<Seq<char>>,
    source_is_dir: bool,
    monorepo_is_dir: bool,
) -> bool {
    &&& source matches Some(s) ==> fs.answers_is_dir(features_dir_under(s), source_is_dir)
    &&& source is None ==> !source_is_dir
    &&& !(source is Some && source_is_dir) ==> fs.answers_is_dir(features_dir_under("dotfiles"@), monorepo_is_dir)
}

/// `r` is the features directory resolved from the client's answer
/// `source` and the filesystem's answers: an error of the client as it is,
/// else `features_dir_choice` of what was answered.
pub open spec fn resolved_from<C: ChezmoiClient + ?Sized, F: FileSystem + ?Sized>(
    chezmoi: &C,
    fs: &F,
    source: Result<Option<String>, KaizenError>,
    source_is_dir: bool,
    monorepo_is_dir: bool,
    r: Result<String, KaizenError>,
) -> bool {
    &&& chezmoi.answers_source(source)
    &&& source is Err ==> r == Err::<String, KaizenError>(source->Err_0)
    &&& source is Ok ==> features_dir_answers(fs, opt_str(source->Ok_0), source_is_dir, monorepo_is_dir)
    &&& source is Ok ==> features_dir_result(
        features_dir_choice(None, opt_str(source->Ok_0), source_is_dir, monorepo_is_dir),
        r,
    )
}

/// The decision of `resolve_features_dir` (`features_dir_choice`); when
/// nothing is found, `FeaturesDirNotFound` naming `kaizen/features`.
pub fn choose_features_dir(
    explicit: Option<String>,
    source: Option<String>,
    source_is_dir: bool,
    monorepo_is_dir: bool,
) -> (r: Result<String, KaizenError>)
    ensures
        features_dir_result(features_dir_choice(opt_str(explicit), opt_str(source), source_is_dir, monorepo_is_dir), r),
{
    if let Some(dir) = explicit {
        return Ok(dir);
    }
    if let Some(s) = source {
        if source_is_dir {
            return Ok(features_dir_of(s.as_str()));
        }
    }
    if monorepo_is_dir {
        return Ok(features_dir_of("dotfiles"));
    }
    Err(KaizenError::FeaturesDirNotFound { path: join_path_str(KAIZEN_DIR, FEATURES_SUBDIR) })
}

/// Locate the features directory (`choose_features_dir`): the explicit one,
/// without asking anything; else the chezmoi source is asked for, then
/// whether its `kaizen/features` is a directory, then (when that did not
/// settle it) whether `dotfiles/kaizen/features` is. An error of the chezmoi
/// client is passed on; what the client and the filesystem answer decides
/// the rest.
pub fn resolve_features_dir(
    explicit: Option<String>,
    reporter: &dyn ProgressReporter,
    chezmoi: &dyn ChezmoiClient,
    fs: &dyn FileSystem,
) -> (r: Result<String, KaizenError>)
    ensures
        explicit matches Some(d) ==> r matches Ok(p) && p@ == d@,
        explicit is None ==> exists|source: Result<Option<String>, KaizenError>, source_is_dir: bool, monorepo_is_dir: bool|
            #[trigger] resolved_from(chezmoi, fs, source, source_is_dir, monorepo_is_dir, r),
{
    if explicit.is_some() {
        return choose_features_dir(explicit, None, false, false);
    }
    let answer = chezmoi.source_path();
    let ghost src_answer = answer;
    let source = match answer {
        Err(e) => {
            assert(resolved_from(chezmoi, fs, src_answer, false, false, Err::<String, KaizenError>(e)));
            return Err(e);
        },
        Ok(s) => s,
    };
    let source_is_dir = match &source {
        Some(s) => {
            let candidate = features_dir_of(s.as_str());
            fs.is_dir(candidate.as_str())
        },
        None => false,
    };
    let monorepo_is_dir = if source.is_some() && source_is_dir {
        false
    } else {
        let monorepo = features_dir_of("dotfiles");
        fs.is_dir(monorepo.as_str())
    };
    let ghost src = opt_str(source);
    let r = choose_features_dir(explicit, source, source_is_dir, monorepo_is_dir);
    assert(resolved_from(chezmoi, fs, src_answer, source_is_dir, monorepo_is_dir, r));
    r
}

/// The default `config.toml`: `kaizen/config.toml` under the configuration
/// directory, or under `.config` when there is none.
pub open spec fn default_config_path_of(config_dir: Option<Seq<char>>) -> Seq<char> {
    let base = match config_dir {
        Some(d) => d,
        None => ".config"@,
    };
    path_join(path_join(base, "kaizen"@), "config.toml"@)
}

/// `default_config_path_of` the given configuration directory.
pub fn default_config_path_from(config_dir: Option<String>) -> (r: String)
    ensures
        r@ == default_config_path_of(opt_str(config_dir)),
{
    let base = match config_dir {
        Some(d) => d,
        None => String::from_str(".config"),
    };
    let k = join_path_str(base.as_str(), "kaizen");
    join_path_str(k.as_str(), "config.toml")
}

/// The default `config.toml` under the directory that `paths` reports.
pub fn default_config_path(paths: &dyn PathProvider) -> (r: String)
    ensures
        exists|d: Option<String>| #[trigger] paths.answers_config_dir(d) && r@ == default_config_path_of(opt_str(d)),
{
    let d = paths.config_dir();
    let ghost dv = d;
    let r = default_config_path_from(d);
    assert(paths.answers_config_dir(dv) && r@ == default_config_path_of(opt_str(dv)));
    r
}


// ── Category order of feature entries ───────────────────────────────────────

/// A feature entry: its name, its category and what it carries.
pub type Entry<T> = (String, String, T);

/// `a` comes strictly after `b`: by category rank, then by name.
pub open spec fn entry_after<T>(a: Entry<T>, b: Entry<T>) -> bool {
    category_rank(a.1@) > category_rank(b.1@) || (category_rank(a.1@) == category_rank(b.1@) && text_lt(
        b.0@,
        a.0@,
    ))
}

/// `x` inserted before the first entry that comes after it.
pub open spec fn insert_entry<T>(s: Seq<Entry<T>>, x: Entry<T>) -> Seq<Entry<T>>
    decreases s.len(),
{
    if s.len() == 0 {
        seq![x]
    } else if entry_after(s[0], x) {
        seq![x] + s
    } else {
        seq![s[0]] + insert_entry(s.drop_first(), x)
    }
}

/// Entries in category order (dev, system, others, ai), then by name; equal
/// keys keep their order (a stable sort).
pub open spec fn sort_entries<T>(s: Seq<Entry<T>>) -> Seq<Entry<T>>
    decreases s.len(),
{
    if s.len() == 0 {
        Seq::empty()
    } else {
        insert_entry(sort_entries(s.drop_last()), s.last())
    }
}

proof fn lemma_insert_entry_at<T>(s: Seq<Entry<T>>, x: Entry<T>, pos: int)
    requires
        0 <= pos <= s.len(),
        forall|j: int| 0 <= j < pos ==> !entry_after(#[trigger] s[j], x),
        pos < s.len() ==> entry_after(s[pos], x),
    ensures
        insert_entry(s, x) == s.insert(pos, x),
    decreases s.len(),
{
    if s.len() == 0 {
        assert(s.insert(pos, x) =~= seq![x]);
    } else if pos == 0 {
        assert(s.insert(0, x) =~= seq![x] + s);
    } else {
        let t = s.drop_first();
        assert forall|j: int| 0 <= j < pos - 1 implies !entry_after(#[trigger] t[j], x) by {
            assert(t[j] == s[j + 1]);
        }
        if pos - 1 < t.len() {
            assert(t[pos - 1] == s[pos]);
        }
        lemma_insert_entry_at(t, x, pos - 1);
        assert(s.insert(pos, x) =~= seq![s[0]] + t.insert(pos - 1, x));
    }
}

fn entry_after_exec<T>(a: &Entry<T>, b: &Entry<T>) -> (r: bool)
    ensures
        r == entry_after(*a, *b),
{
    let ra = category_order(a.1.as_str());
    let rb = category_order(b.1.as_str());
    if ra != rb {
        ra > rb
    } else {
        let an = chars_of(a.0.as_str());
        let bn = chars_of(b.0.as_str());
        chars_lt(&bn, &an)
    }
}

/// The enabled features that `categories` knows, in configuration order,
/// each with its category.
pub open spec fn enabled_known_of(features: Seq<(String, bool)>, categories: Map<Seq<char>, String>) -> Seq<
    (Seq<char>, Seq<char>),
>
    decreases features.len(),
{
    if features.len() == 0 {
        Seq::empty()
    } else {
        let prev = enabled_known_of(features.drop_last(), categories);
        let (name, enabled) = features.last();
        if enabled && categories.contains_key(name@) {
            prev.push((name@, categories[name@]@))
        } else {
            prev
        }
    }
}

/// `enabled_known_of`: the features whose entries the update and bump
/// workflows take, given the configured `(name, enabled)` flags and the
/// category of each feature that has something to contribute.
pub fn enabled_known(features: &Vec<(String, bool)>, categories: &StrMap<String>) -> (r: Vec<(String, String)>)
    ensures
        r@.map_values(|p: (String, String)| (p.0@, p.1@)) == enabled_known_of(features@, categories@),
{
    let mut r: Vec<(String, String)> = Vec::new();
    let mut i: usize = 0;
    assert(features@.take(0) =~= Seq::<(String, bool)>::empty());
    while i < features.len()
        invariant
            0 <= i <= features@.len(),
            r@.map_values(|p: (String, String)| (p.0@, p.1@)) == enabled_known_of(features@.take(i as int), categories@),
        decreases features@.len() - i,
    {
        let ghost before = r@;
        proof {
            assert(features@.take(i + 1).drop_last() =~= features@.take(i as int));
            assert(features@.take(i + 1).last() == features@[i as int]);
        }
        if features[i].1 {
            match categories.get(features[i].0.as_str()) {
                Some(c) => {
                    r.push((features[i].0.clone(), c.clone()));
                    assert(r@.map_values(|p: (String, String)| (p.0@, p.1@)) =~= before.map_values(
                        |p: (String, String)| (p.0@, p.1@),
                    ).push((features@[i as int].0@, categories@[features@[i as int].0@]@)));
                },
                None => {},
            }
        }
        i = i + 1;
    }
    assert(features@.take(features@.len() as int) =~= features@);
    r
}

/// Puts feature entries in the order in which bump and update workflows run
/// them (`sort_entries`).
pub fn order_by_category<T>(entries: Vec<Entry<T>>) -> (r: Vec<Entry<T>>)
    ensures
        r@ == sort_entries(entries@),
{
    let ghost orig = entries@;
    assert(orig.len() == entries.len());
    let mut input = entries;
    let mut out: Vec<Entry<T>> = Vec::new();
    let mut k: usize = 0;
    assert(orig.take(0) =~= Seq::<Entry<T>>::empty());
    assert(orig.skip(0) =~= orig);
    while input.len() > 0
        invariant
            k + input@.len() == orig.len(),
            orig.len() <= usize::MAX,
            input@ == orig.skip(k as int),
            out@ == sort_entries(orig.take(k as int)),
        decreases input@.len(),
    {
        let x = input.remove(0);
        let ghost xv = x;
        assert(xv == orig[k as int]);
        let mut pos: usize = 0;
        while pos < out.len()
            invariant
                0 <= pos <= out@.len(),
                forall|j: int| 0 <= j < pos ==> !entry_after(#[trigger] out@[j], xv),
                xv == x,
            ensures
                0 <= pos <= out@.len(),
                forall|j: int| 0 <= j < pos ==> !entry_after(#[trigger] out@[j], xv),
                pos < out@.len() ==> entry_after(out@[pos as int], xv),
            decreases out@.len() - pos,
        {
            if entry_after_exec(&out[pos], &x) {
                break;
            }
            pos = pos + 1;
        }
        proof {
            lemma_insert_entry_at(out@, xv, pos as int);
            assert(orig.take(k + 1).drop_last() =~= orig.take(k as int));
            assert(orig.take(k + 1).last() == xv);
            assert(input@ =~= orig.skip(k + 1));
        }
        out.insert(pos, x);
        k = k + 1;
    }
    assert(orig.take(k as int) =~= orig);
    out
}

proof fn lemma_entry_after_transitive<T>(a: Entry<T>, b: Entry<T>, c: Entry<T>)
    requires
        entry_after(a, b),
        entry_after(b, c),
    ensures
        entry_after(a, c),
{
    if category_rank(a.1@) == category_rank(b.1@) && category_rank(b.1@) == category_rank(c.1@) {
        lemma_text_lt_transitive(c.0@, b.0@, a.0@);
    }
}

proof fn lemma_entry_after_asymmetric<T>(a: Entry<T>, b: Entry<T>)
    requires
        entry_after(a, b),
    ensures
        !entry_after(b, a),
{
    if category_rank(a.1@) == category_rank(b.1@) {
        lemma_text_lt_asymmetric(b.0@, a.0@);
    }
}

pub open spec fn entries_ordered<T>(s: Seq<Entry<T>>) -> bool {
    forall|i: int, j: int| 0 <= i < j < s.len() ==> !entry_after(#[trigger] s[i], #[trigger] s[j])
}

proof fn lemma_insert_entry_ordered<T>(s: Seq<Entry<T>>, x: Entry<T>)
    requires
        entries_ordered(s),
    ensures
        entries_ordered(insert_entry(s, x)),
        insert_entry(s, x).to_multiset() == s.to_multiset().insert(x),
    decreases s.len(),
{
    broadcast use vstd::seq_lib::to_multiset_insert;

    let r = insert_entry(s, x);
    if s.len() == 0 {
        assert(r =~= s.insert(0, x));
    } else if entry_after(s[0], x) {
        assert(r =~= s.insert(0, x));
        assert forall|i: int, j: int| 0 <= i < j < r.len() implies !entry_after(#[trigger] r[i], #[trigger] r[j]) by {
            if i == 0 {
                if j == 1 {
                    lemma_entry_after_asymmetric(s[0], x);
                } else {
                    assert(!entry_after(s[0], s[j - 1]));
                    if entry_after(x, s[j - 1]) {
                        lemma_entry_after_transitive(s[0], x, s[j - 1]);
                    }
                }
            } else {
                assert(!entry_after(s[i - 1], s[j - 1]));
            }
        }
    } else {
        let t = s.drop_first();
        assert forall|i: int, j: int| 0 <= i < j < t.len() implies !entry_after(#[trigger] t[i], #[trigger] t[j]) by {
            assert(!entry_after(s[i + 1], s[j + 1]));
        }
        lemma_insert_entry_ordered(t, x);
        let rt = insert_entry(t, x);
        assert(rt.to_multiset().count(x) > 0);
        assert forall|j: int| 0 <= j < rt.len() implies !entry_after(s[0], #[trigger] rt[j]) by {
            let y = rt[j];
            assert(rt.to_multiset().contains(y)) by {
                vstd::seq_lib::to_multiset_contains(rt, y);
            }
            if y != x {
                assert(t.to_multiset().contains(y));
                assert(t.contains(y)) by {
                    vstd::seq_lib::to_multiset_contains(t, y);
                }
                let k = choose|k: int| 0 <= k < t.len() && t[k] == y;
                assert(!entry_after(s[0], s[k + 1]));
            }
        }
        assert forall|i: int, j: int| 0 <= i < j < r.len() implies !entry_after(#[trigger] r[i], #[trigger] r[j]) by {
            if i == 0 {
                assert(r[j] == rt[j - 1]);
            } else {
                assert(!entry_after(rt[i - 1], rt[j - 1]));
            }
        }
        assert(r =~= rt.insert(0, s[0]));
        assert(s =~= t.insert(0, s[0]));
        assert(r.to_multiset() =~= s.to_multiset().insert(x));
    }
}

/// Workflows run in category order: the entries come out ordered by
/// category (dev, system, the others, ai) and by name within a category,
/// and they are the input entries rearranged.
pub proof fn category_order_law<T>(s: Seq<Entry<T>>)
    ensures
        entries_ordered(sort_entries(s)),
        sort_entries(s).to_multiset() == s.to_multiset(),
    decreases s.len(),
{
    broadcast use vstd::seq_lib::to_multiset_build;

    if s.len() == 0 {
        assert(sort_entries(s) =~= s);
    } else {
        let t = s.drop_last();
        category_order_law(t);
        lemma_insert_entry_ordered(sort_entries(t), s.last());
        assert(s =~= t.push(s.last()));
    }
}

} // verus!
