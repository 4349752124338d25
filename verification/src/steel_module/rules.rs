//! Rules of the Steel runtime that do not need the interpreter: group
//! conflicts, hook resolution, module selection, file destinations and the
//! messages the runtime reports.
use vstd::prelude::*;

use super::state::{apply_overrides, binding_view, binding_views, opt_text, BindingDecl, BindingView, KaizenState, ModuleDecl};
use crate::feature_store::{entries_with_extension, file_stem_of, files_with_extension, path_file_stem};
use crate::path::sorted_unique_paths;
use crate::error::KaizenError;
use crate::strmap::{entries_map, keys_of, strictly_sorted, StrMap};
use crate::toml_doc::{
    entry_keys, get_entry, get_value, list_value, parse_toml, render_toml, shape_of, table_value, text_value, toml_array_of,
    toml_document, toml_renders, toml_shape, toml_string_of, toml_table_of, toml_text, TomlShape,
};
use crate::text::{chars_lt, chars_of, lemma_text_lt_asymmetric, lemma_text_lt_transitive, join, join_path_str, join_strings, path_join, str_eq, string_of, string_views, text_lt, u64_digits, digits};

verus! {

// ── Group conflicts ─────────────────────────────────────────────────────────

/// Names of the modules of `mods` that claim group `g`, in order.
pub open spec fn group_members(mods: Seq<ModuleDecl>, g: Seq<char>) -> Seq<Seq<char>>
    decreases mods.len(),
{
    if mods.len() == 0 {
        Seq::empty()
    } else {
        let prev = group_members(mods.drop_last(), g);
        if opt_text(mods.last().group) == Some(g) {
            prev.push(mods.last().name@)
        } else {
            prev
        }
    }
}

/// The message for a group claimed by several modules.
pub open spec fn conflict_message(g: Seq<char>, names: Seq<Seq<char>>) -> Seq<char> {
    "group '"@ + g + "' claimed by multiple modules: "@ + join(names, ", "@)
}

/// `groups` lists, by increasing name, each group claimed by more than one
/// module of `mods`.
pub open spec fn conflicting_groups(mods: Seq<ModuleDecl>, groups: Seq<Seq<char>>) -> bool {
    strictly_sorted(groups) && forall|g: Seq<char>| #[trigger] groups.contains(g) <==> group_members(mods, g).len() > 1
}

pub proof fn lemma_group_members_step(mods: Seq<ModuleDecl>, i: int, g: Seq<char>)
    requires
        0 <= i < mods.len(),
    ensures
        group_members(mods.take(i + 1), g) == if opt_text(mods[i].group) == Some(g) {
            group_members(mods.take(i), g).push(mods[i].name@)
        } else {
            group_members(mods.take(i), g)
        },
{
    assert(mods.take(i + 1).drop_last() =~= mods.take(i));
}

/// Groups claimed by several modules. `Ok` when there is none; otherwise
/// one message per such group, listing its modules in declaration order,
/// by increasing group name.
pub fn resolve_group_conflicts(state: &KaizenState) -> (r: Result<(), Vec<String>>)
    ensures
        r is Ok <==> (forall|g: Seq<char>| group_members(state.modules@, g).len() <= 1),
        r matches Err(msgs) ==> exists|groups: Seq<Seq<char>>|
            conflicting_groups(state.modules@, groups) && string_views(msgs@) == groups.map_values(
                |g: Seq<char>| conflict_message(g, group_members(state.modules@, g)),
            ),
{
    let ghost mods = state.modules@;
    let mut by_group: StrMap<Vec<String>> = StrMap::new();
    let mut i: usize = 0;
    while i < state.modules.len()
        invariant
            0 <= i <= mods.len(),
            mods == state.modules@,
            forall|g: Seq<char>| #[trigger] by_group@.contains_key(g) <==> group_members(mods.take(i as int), g).len() > 0,
            forall|g: Seq<char>| #[trigger] by_group@.contains_key(g) ==> string_views(by_group@[g]@) == group_members(
                mods.take(i as int),
                g,
            ),
        decreases mods.len() - i,
    {
        let m = &state.modules[i];
        proof {
            assert forall|g: Seq<char>| true implies #[trigger] group_members(mods.take(i + 1), g) == (if opt_text(mods[i as int].group) == Some(g) {
                group_members(mods.take(i as int), g).push(mods[i as int].name@)
            } else {
                group_members(mods.take(i as int), g)
            }) by {
                lemma_group_members_step(mods, i as int, g);
            }
        }
        match &m.group {
            Some(g) => {
                let mut names: Vec<String> = match by_group.get(g.as_str()) {
                    Some(v) => crate::progress::copy_strings(v),
                    None => Vec::new(),
                };
                let ghost before_names = string_views(names@);
                names.push(m.name.clone());
                assert(string_views(names@) =~= before_names.push(m.name@));
                let ghost before = by_group@;
                by_group.insert(g.clone(), names);
                proof {
                    assert forall|h: Seq<char>| #[trigger] by_group@.contains_key(h) <==> group_members(mods.take(i + 1), h).len() > 0 by {
                        if h != g@ {
                            assert(before.contains_key(h) == by_group@.contains_key(h));
                        }
                    }
                    assert forall|h: Seq<char>| #[trigger] by_group@.contains_key(h) implies string_views(by_group@[h]@)
                        == group_members(mods.take(i + 1), h) by {
                        if h == g@ {
                            if !before.contains_key(h) {
                                assert(group_members(mods.take(i as int), h).len() == 0);
                                assert(before_names =~= group_members(mods.take(i as int), h));
                            }
                        } else {
                            assert(before.contains_key(h));
                        }
                    }
                }
            },
            None => {},
        }
        i = i + 1;
    }
    assert(mods.take(mods.len() as int) =~= mods);
    let e = by_group.entries();
    let mut msgs: Vec<String> = Vec::new();
    let ghost mut groups: Seq<Seq<char>> = Seq::empty();
    let mut n: usize = 0;
    while n < e.len()
        invariant
            0 <= n <= e@.len(),
            mods == state.modules@,
            strictly_sorted(keys_of(e@)),
            forall|j: int| 0 <= j < e@.len() ==> #[trigger] by_group@.contains_key(e@[j].0@) && by_group@[e@[j].0@] == e@[j].1,
            forall|g: Seq<char>| #[trigger] by_group@.contains_key(g) <==> group_members(mods, g).len() > 0,
            forall|g: Seq<char>| #[trigger] by_group@.contains_key(g) ==> string_views(by_group@[g]@) == group_members(mods, g),
            forall|k: Seq<char>| #[trigger] by_group@.contains_key(k) <==> exists|j: int| 0 <= j < e@.len() && e@[j].0@ == k,
            strictly_sorted(groups),
            forall|g: Seq<char>| #[trigger] groups.contains(g) <==> (exists|j: int| 0 <= j < n && e@[j].0@ == g) && group_members(mods, g).len() > 1,
            forall|x: int| 0 <= x < groups.len() ==> exists|j: int| 0 <= j < n && e@[j].0@ == #[trigger] groups[x],
            string_views(msgs@) == groups.map_values(|g: Seq<char>| conflict_message(g, group_members(mods, g))),
        decreases e@.len() - n,
    {
        let (g, names) = &e[n];
        proof {
            assert(by_group@.contains_key(e@[n as int].0@));
        }
        if names.len() > 1 {
            let joined = join_strings(names, ", ");
            let mut msg = String::from_str("group '");
            msg.append(g.as_str());
            msg.append("' claimed by multiple modules: ");
            msg.append(joined.as_str());
            proof {
                assert(names@.map_values(|p: String| p@) == string_views(names@));
                assert(msg@ =~= conflict_message(g@, group_members(mods, g@)));
                assert forall|x: int| 0 <= x < groups.len() implies text_lt(#[trigger] groups[x], g@) by {
                    let j = choose|j: int| 0 <= j < n && e@[j].0@ == groups[x];
                    assert(keys_of(e@)[j] == e@[j].0@);
                    assert(keys_of(e@)[n as int] == e@[n as int].0@);
                }
            }
            let ghost before_msgs = string_views(msgs@);
            let ghost old_groups = groups;
            msgs.push(msg);
            proof {
                groups = groups.push(g@);
                assert(string_views(msgs@) =~= before_msgs.push(msg@));
                assert(groups.map_values(|g: Seq<char>| conflict_message(g, group_members(mods, g))) =~= old_groups.map_values(
                    |g: Seq<char>| conflict_message(g, group_members(mods, g)),
                ).push(conflict_message(g@, group_members(mods, g@))));
                assert forall|a: int, b: int| 0 <= a < b < groups.len() implies text_lt(#[trigger] groups[a], #[trigger] groups[b]) by {
                    if b == groups.len() - 1 {
                        assert(text_lt(old_groups[a], g@));
                    } else {
                        assert(text_lt(old_groups[a], old_groups[b]));
                    }
                }
                assert forall|h: Seq<char>| #[trigger] groups.contains(h) <==> (exists|j: int| 0 <= j < n + 1 && e@[j].0@ == h)
                    && group_members(mods, h).len() > 1 by {
                    if groups.contains(h) && h != g@ {
                        let x = choose|x: int| 0 <= x < groups.len() && groups[x] == h;
                        assert(old_groups[x] == h);
                        assert(old_groups.contains(h));
                    }
                    if (exists|j: int| 0 <= j < n + 1 && e@[j].0@ == h) && group_members(mods, h).len() > 1 {
                        let j = choose|j: int| 0 <= j < n + 1 && e@[j].0@ == h;
                        if j < n {
                            assert(old_groups.contains(h));
                            let x = choose|x: int| 0 <= x < old_groups.len() && old_groups[x] == h;
                            assert(groups[x] == h);
                        } else {
                            assert(groups[groups.len() - 1] == h);
                        }
                    }
                }
                assert forall|x: int| 0 <= x < groups.len() implies exists|j: int| 0 <= j < n + 1 && e@[j].0@ == #[trigger] groups[x] by {
                    if x < old_groups.len() {
                        assert(groups[x] == old_groups[x]);
                    } else {
                        assert(e@[n as int].0@ == groups[x]);
                    }
                }
            }
        } else {
            proof {
                assert forall|h: Seq<char>| #[trigger] groups.contains(h) <==> (exists|j: int| 0 <= j < n + 1 && e@[j].0@ == h)
                    && group_members(mods, h).len() > 1 by {
                    if (exists|j: int| 0 <= j < n + 1 && e@[j].0@ == h) && group_members(mods, h).len() > 1 {
                        let j = choose|j: int| 0 <= j < n + 1 && e@[j].0@ == h;
                        if j == n {
                            assert(string_views(names@).len() == names@.len());
                        }
                    }
                }
                assert forall|x: int| 0 <= x < groups.len() implies exists|j: int| 0 <= j < n + 1 && e@[j].0@ == #[trigger] groups[x] by {
                    let j = choose|j: int| 0 <= j < n && e@[j].0@ == groups[x];
                }
            }
        }
        n = n + 1;
    }
    proof {
        assert forall|g: Seq<char>| #[trigger] groups.contains(g) <==> group_members(mods, g).len() > 1 by {
            if group_members(mods, g).len() > 1 {
                assert(by_group@.contains_key(g));
            }
        }
    }
    if msgs.len() == 0 {
        proof {
            assert forall|g: Seq<char>| group_members(mods, g).len() <= 1 by {
                if group_members(mods, g).len() > 1 {
                    assert(groups.contains(g));
                    assert(string_views(msgs@).len() == groups.len());
                }
            }
        }
        Ok(())
    } else {
        proof {
            let g0 = groups[0];
            assert(groups.contains(g0));
            assert(conflicting_groups(state.modules@, groups));
            assert(string_views(msgs@) == groups.map_values(
                |g: Seq<char>| conflict_message(g, group_members(state.modules@, g)),
            ));
        }
        Err(msgs)
    }
}

// ── Hooks ───────────────────────────────────────────────────────────────────

/// The consumers (by hook name, in order) that no provider serves.
pub open spec fn missing_hooks(consumers: Seq<Seq<char>>, providers: Seq<Seq<char>>) -> Seq<Seq<char>>
    decreases consumers.len(),
{
    if consumers.len() == 0 {
        Seq::empty()
    } else {
        let prev = missing_hooks(consumers.drop_last(), providers);
        if providers.contains(consumers.last()) {
            prev
        } else {
            prev.push(consumers.last())
        }
    }
}

fn listed(names: &Vec<String>, name: &String) -> (b: bool)
    ensures
        b == string_views(names@).contains(name@),
{
    let mut i: usize = 0;
    while i < names.len()
        invariant
            0 <= i <= names@.len(),
            forall|k: int| 0 <= k < i ==> #[trigger] names@[k]@ != name@,
        decreases names@.len() - i,
    {
        if names[i].eq(name) {
            assert(string_views(names@)[i as int] == name@);
            return true;
        }
        i = i + 1;
    }
    proof {
        if string_views(names@).contains(name@) {
            let k = choose|k: int| 0 <= k < string_views(names@).len() && string_views(names@)[k] == name@;
            assert(names@[k]@ == name@);
        }
    }
    false
}

/// Before any hook runs, every consumer must have a provider: otherwise the
/// apply phase fails with one message naming all missing hooks, and no hook
/// is run.
pub fn check_hook_providers(consumers: &Vec<String>, providers: &Vec<String>) -> (r: Result<(), String>)
    ensures
        r is Ok <==> missing_hooks(string_views(consumers@), string_views(providers@)).len() == 0,
        r matches Err(m) ==> m@ == "missing hook providers: "@ + join(
            missing_hooks(string_views(consumers@), string_views(providers@)),
            ", "@,
        ),
{
    let ghost cv = string_views(consumers@);
    let ghost pv = string_views(providers@);
    let mut missing: Vec<String> = Vec::new();
    let mut i: usize = 0;
    assert(cv.take(0) =~= Seq::<Seq<char>>::empty());
    while i < consumers.len()
        invariant
            0 <= i <= consumers@.len(),
            cv == string_views(consumers@),
            pv == string_views(providers@),
            string_views(missing@) == missing_hooks(cv.take(i as int), pv),
        decreases consumers@.len() - i,
    {
        proof {
            assert(cv.take(i + 1).drop_last() =~= cv.take(i as int));
            assert(cv.take(i + 1).last() == consumers@[i as int]@);
        }
        if !listed(providers, &consumers[i]) {
            let ghost before = string_views(missing@);
            missing.push(consumers[i].clone());
            assert(string_views(missing@) =~= before.push(consumers@[i as int]@));
        }
        i = i + 1;
    }
    assert(cv.take(consumers@.len() as int) =~= cv);
    if missing.len() == 0 {
        return Ok(());
    }
    let joined = join_strings(&missing, ", ");
    let mut m = String::from_str("missing hook providers: ");
    m.append(joined.as_str());
    Err(m)
}

/// Message of a hook whose consumer failed.
pub fn hook_failure_message(hook_name: &str, error: &str) -> (m: String)
    ensures
        m@ == "hook '"@ + hook_name@ + "' failed: "@ + error@,
{
    let mut m = String::from_str("hook '");
    m.append(hook_name);
    m.append("' failed: ");
    m.append(error);
    m
}

// ── Runtime output ──────────────────────────────────────────────────────────

/// `(action, key, mode)` of the bindings of `module`, in order.
pub open spec fn bindings_of_module(eff: Seq<BindingView>, module: Seq<char>) -> Seq<(Seq<char>, Seq<char>, Seq<char>)>
    decreases eff.len(),
{
    if eff.len() == 0 {
        Seq::empty()
    } else {
        let prev = bindings_of_module(eff.drop_last(), module);
        if eff.last().0 == module {
            prev.push((eff.last().1, eff.last().2, eff.last().3))
        } else {
            prev
        }
    }
}

pub open spec fn text_triples(s: Seq<(String, String, String)>) -> Seq<(Seq<char>, Seq<char>, Seq<char>)> {
    s.map_values(|p: (String, String, String)| (p.0@, p.1@, p.2@))
}

/// The `(action, key, mode)` rows of a module's bindings, as returned by
/// `get-bindings` (`runtime.json` keeps action and key).
pub fn module_bindings(effective: &Vec<BindingDecl>, module: &str) -> (r: Vec<(String, String, String)>)
    ensures
        text_triples(r@) == bindings_of_module(binding_views(effective@), module@),
{
    let ghost ev = binding_views(effective@);
    let mut r: Vec<(String, String, String)> = Vec::new();
    let mut i: usize = 0;
    assert(ev.take(0) =~= Seq::<BindingView>::empty());
    while i < effective.len()
        invariant
            0 <= i <= effective@.len(),
            ev == binding_views(effective@),
            text_triples(r@) == bindings_of_module(ev.take(i as int), module@),
        decreases effective@.len() - i,
    {
        let b = &effective[i];
        proof {
            assert(ev.take(i + 1).drop_last() =~= ev.take(i as int));
            assert(ev.take(i + 1).last() == binding_view(*b));
        }
        if str_eq(b.module_name.as_str(), module) {
            let ghost before = text_triples(r@);
            r.push((b.action.clone(), b.key.clone(), b.mode.clone()));
            assert(text_triples(r@) =~= before.push((b.action@, b.key@, b.mode@)));
        }
        i = i + 1;
    }
    assert(ev.take(effective@.len() as int) =~= ev);
    r
}

// ── Files ───────────────────────────────────────────────────────────────────

/// `read-file`: an absolute path as is; a relative one under the directory
/// of the module being loaded, when there is one.
pub open spec fn read_path_of(path: Seq<char>, module_dir: Option<Seq<char>>) -> Seq<char> {
    if path.len() > 0 && path[0] == '/' {
        path
    } else {
        let base = match module_dir {
            Some(d) => d,
            None => Seq::empty(),
        };
        if base.len() == 0 {
            path
        } else {
            base + "/"@ + path
        }
    }
}

pub fn resolve_read_path(path: &str, module_dir: &Option<String>) -> (r: String)
    ensures
        r@ == read_path_of(path@, opt_text(*module_dir)),
{
    let pc = crate::text::chars_of(path);
    if pc.len() > 0 && pc[0] == '/' {
        return String::from_str(path);
    }
    let base = match module_dir {
        Some(d) => d.clone(),
        None => String::new(),
    };
    if base.as_str().is_empty() {
        return String::from_str(path);
    }
    let mut r = base;
    r.append("/");
    r.append(path);
    r
}

/// Where `config-dir!` copies a feature's files: `dot_config/<feature>`
/// under the chezmoi source, or under `dotfiles` when it is unknown.
pub open spec fn config_destination(chezmoi_source: Option<Seq<char>>, feature: Seq<char>) -> Seq<char> {
    match chezmoi_source {
        Some(cs) => path_join(path_join(cs, "dot_config"@), feature),
        None => path_join("dotfiles/dot_config"@, feature),
    }
}

pub fn config_destination_of(chezmoi_source: &Option<String>, feature: &str) -> (r: String)
    ensures
        r@ == config_destination(opt_text(*chezmoi_source), feature@),
{
    match chezmoi_source {
        Some(cs) => {
            let d = join_path_str(cs.as_str(), "dot_config");
            join_path_str(d.as_str(), feature)
        },
        None => join_path_str("dotfiles/dot_config", feature),
    }
}

/// Files of a feature directory that `config-dir!` does not copy.
pub fn skipped_by_config_dir(file_name: &str) -> (b: bool)
    ensures
        b == (file_name@ == "module.scm"@ || file_name@ == "base.toml"@),
{
    str_eq(file_name, "module.scm") || str_eq(file_name, "base.toml")
}

// ── Loading ─────────────────────────────────────────────────────────────────

/// A module is loaded when there is no enabled list, or it is listed.
pub fn should_load(enabled: &Option<Vec<String>>, name: &String) -> (b: bool)
    ensures
        b == match *enabled {
            Some(l) => string_views(l@).contains(name@),
            None => true,
        },
{
    match enabled {
        Some(l) => listed(l, name),
        None => true,
    }
}

/// Message for a module that failed to load (`user_override` for the
/// user's override files).
pub fn load_failure_message(user_override: bool, name: &str, error: &str) -> (m: String)
    ensures
        m@ == (if user_override {
            "failed to load user override '"@
        } else {
            "failed to load module '"@
        }) + name@ + "': "@ + error@,
{
    let mut m = if user_override {
        String::from_str("failed to load user override '")
    } else {
        String::from_str("failed to load module '")
    };
    m.append(name);
    m.append("': ");
    m.append(error);
    m
}

/// Name under which the `i`-th callback of a phase is registered:
/// `*kaizen-<phase>-cb-<i>*`.
pub fn callback_key(phase: &str, i: u64) -> (k: String)
    ensures
        k@ == "*kaizen-"@ + phase@ + "-cb-"@ + digits(i as nat) + "*"@,
{
    let mut k = String::from_str("*kaizen-");
    k.append(phase);
    k.append("-cb-");
    let d = string_of(&u64_digits(i));
    k.append(d.as_str());
    k.append("*");
    k
}


// ── Module order ────────────────────────────────────────────────────────────

/// A discovered module: its name and what the loader keeps with it.
pub type Named<T> = (String, T);

/// `x` inserted after the modules whose name is not above its own.
pub open spec fn insert_named<T>(s: Seq<Named<T>>, x: Named<T>) -> Seq<Named<T>>
    decreases s.len(),
{
    if s.len() == 0 {
        seq![x]
    } else if text_lt(x.0@, s[0].0@) {
        seq![x] + s
    } else {
        seq![s[0]] + insert_named(s.drop_first(), x)
    }
}

/// Modules by increasing name; modules of equal name keep their order (a
/// stable sort, as `sort_by` on the name).
pub open spec fn sort_named<T>(s: Seq<Named<T>>) -> Seq<Named<T>>
    decreases s.len(),
{
    if s.len() == 0 {
        Seq::empty()
    } else {
        insert_named(sort_named(s.drop_last()), s.last())
    }
}

proof fn lemma_insert_named_at<T>(s: Seq<Named<T>>, x: Named<T>, pos: int)
    requires
        0 <= pos <= s.len(),
        forall|j: int| 0 <= j < pos ==> !text_lt(x.0@, (#[trigger] s[j]).0@),
        pos < s.len() ==> text_lt(x.0@, s[pos].0@),
    ensures
        insert_named(s, x) == s.insert(pos, x),
    decreases s.len(),
{
    if s.len() == 0 {
        assert(s.insert(pos, x) =~= seq![x]);
    } else if pos == 0 {
        assert(s.insert(0, x) =~= seq![x] + s);
    } else {
        let t = s.drop_first();
        assert forall|j: int| 0 <= j < pos - 1 implies !text_lt(x.0@, (#[trigger] t[j]).0@) by {
            assert(t[j] == s[j + 1]);
        }
        if pos - 1 < t.len() {
            assert(t[pos - 1] == s[pos]);
        }
        lemma_insert_named_at(t, x, pos - 1);
        assert(s.insert(pos, x) =~= seq![s[0]] + t.insert(pos - 1, x));
    }
}

/// Sorts discovered modules by name (`sort_named`).
pub fn sort_by_name<T>(entries: Vec<Named<T>>) -> (r: Vec<Named<T>>)
    ensures
        r@ == sort_named(entries@),
{
    let ghost orig = entries@;
    assert(orig.len() == entries.len());
    let mut input = entries;
    let mut out: Vec<Named<T>> = Vec::new();
    let mut k: usize = 0;
    assert(orig.take(0) =~= Seq::<Named<T>>::empty());
    assert(orig.skip(0) =~= orig);
    while input.len() > 0
        invariant
            k + input@.len() == orig.len(),
            orig.len() <= usize::MAX,
            input@ == orig.skip(k as int),
            out@ == sort_named(orig.take(k as int)),
        decreases input@.len(),
    {
        let x = input.remove(0);
        let ghost xv = x;
        assert(xv == orig[k as int]);
        let xn = chars_of(x.0.as_str());
        let mut pos: usize = 0;
        while pos < out.len()
            invariant
                0 <= pos <= out@.len(),
                forall|j: int| 0 <= j < pos ==> !text_lt(xv.0@, (#[trigger] out@[j]).0@),
                xv == x,
                xn@ == x.0@,
            ensures
                0 <= pos <= out@.len(),
                forall|j: int| 0 <= j < pos ==> !text_lt(xv.0@, (#[trigger] out@[j]).0@),
                pos < out@.len() ==> text_lt(xv.0@, out@[pos as int].0@),
            decreases out@.len() - pos,
        {
            let on = chars_of(out[pos].0.as_str());
            if chars_lt(&xn, &on) {
                break;
            }
            pos = pos + 1;
        }
        proof {
            lemma_insert_named_at(out@, xv, pos as int);
            assert(orig.take(k + 1).drop_last() =~= orig.take(k as int));
            assert(orig.take(k + 1).last() == xv);
            assert(input@ =~= orig.skip(k + 1));
        }
        out.insert(pos, x);
        k = k + 1;
    }
    assert(orig.take(k as int) =~= orig);
    out
}


pub open spec fn names_ordered<T>(s: Seq<Named<T>>) -> bool {
    forall|i: int, j: int| 0 <= i < j < s.len() ==> !text_lt((#[trigger] s[j]).0@, (#[trigger] s[i]).0@)
}

proof fn lemma_insert_named_ordered<T>(s: Seq<Named<T>>, x: Named<T>)
    requires
        names_ordered(s),
    ensures
        names_ordered(insert_named(s, x)),
        insert_named(s, x).to_multiset() == s.to_multiset().insert(x),
    decreases s.len(),
{
    broadcast use vstd::seq_lib::to_multiset_insert;

    let r = insert_named(s, x);
    if s.len() == 0 {
        assert(r =~= s.insert(0, x));
    } else if text_lt(x.0@, s[0].0@) {
        assert(r =~= s.insert(0, x));
        assert forall|i: int, j: int| 0 <= i < j < r.len() implies !text_lt((#[trigger] r[j]).0@, (#[trigger] r[i]).0@) by {
            if i == 0 {
                if j == 1 {
                    lemma_text_lt_asymmetric(x.0@, s[0].0@);
                } else {
                    assert(!text_lt(s[j - 1].0@, s[0].0@));
                    if text_lt(s[j - 1].0@, x.0@) {
                        lemma_text_lt_transitive(s[j - 1].0@, x.0@, s[0].0@);
                    }
                }
            } else {
                assert(!text_lt(s[j - 1].0@, s[i - 1].0@));
            }
        }
    } else {
        let t = s.drop_first();
        assert forall|i: int, j: int| 0 <= i < j < t.len() implies !text_lt((#[trigger] t[j]).0@, (#[trigger] t[i]).0@) by {
            assert(!text_lt(s[j + 1].0@, s[i + 1].0@));
        }
        lemma_insert_named_ordered(t, x);
        let rt = insert_named(t, x);
        assert forall|j: int| 0 <= j < rt.len() implies !text_lt((#[trigger] rt[j]).0@, s[0].0@) by {
            let y = rt[j];
            assert(rt.to_multiset().contains(y)) by {
                vstd::seq_lib::to_multiset_contains(rt, y);
            }
            if y != x {
                assert(t.to_multiset().contains(y));
                assert(t.contains(y)) by {
                    vstd::seq_lib::to_multiset_contains(t, y);
                }
                let k = choose|k: int| 0 <= k < t.len() && t[k] == y;
                assert(!text_lt(s[k + 1].0@, s[0].0@));
            }
        }
        assert forall|i: int, j: int| 0 <= i < j < r.len() implies !text_lt((#[trigger] r[j]).0@, (#[trigger] r[i]).0@) by {
            if i == 0 {
                assert(r[j] == rt[j - 1]);
            } else {
                assert(!text_lt(rt[j - 1].0@, rt[i - 1].0@));
            }
        }
        assert(r =~= rt.insert(0, s[0]));
        assert(s =~= t.insert(0, s[0]));
        assert(r.to_multiset() =~= s.to_multiset().insert(x));
    }
}

/// Discovered modules come sorted by name: the result is ordered by name
/// and holds exactly the discovered modules.
pub proof fn modules_sorted_law<T>(s: Seq<Named<T>>)
    ensures
        names_ordered(sort_named(s)),
        sort_named(s).to_multiset() == s.to_multiset(),
    decreases s.len(),
{
    broadcast use vstd::seq_lib::to_multiset_build;

    if s.len() == 0 {
        assert(sort_named(s) =~= s);
    } else {
        let t = s.drop_last();
        modules_sorted_law(t);
        lemma_insert_named_ordered(sort_named(t), s.last());
        assert(s =~= t.push(s.last()));
    }
}


// ── User overrides ──────────────────────────────────────────────────────────

/// The module name of a user override file: its file stem (empty when it
/// has none).
pub open spec fn override_name(p: Seq<char>) -> Seq<char> {
    match path_file_stem(p) {
        Some(s) => s,
        None => Seq::empty(),
    }
}

/// The user override files of a directory listing: its `.scm` files in
/// path order, each with its module name.
pub fn user_override_files(paths: &Vec<String>) -> (r: Vec<(String, String)>)
    ensures
        sorted_unique_paths(
            entries_with_extension(string_views(paths@), "scm"@),
            r@.map_values(|e: (String, String)| e.0@),
        ),
        forall|i: int| 0 <= i < r@.len() ==> (#[trigger] r@[i]).1@ == override_name(r@[i].0@),
{
    let sorted = files_with_extension(paths, "scm");
    let mut out: Vec<(String, String)> = Vec::new();
    let mut j: usize = 0;
    while j < sorted.len()
        invariant
            0 <= j <= sorted@.len(),
            out@.len() == j,
            forall|k: int| 0 <= k < j ==> (#[trigger] out@[k]).0@ == sorted@[k]@,
            forall|k: int| 0 <= k < j ==> (#[trigger] out@[k]).1@ == override_name(out@[k].0@),
        decreases sorted@.len() - j,
    {
        let f = sorted[j].clone();
        let name = match file_stem_of(f.as_str()) {
            Some(stem) => stem,
            None => String::new(),
        };
        out.push((f, name));
        j = j + 1;
    }
    assert(out@.map_values(|e: (String, String)| e.0@) =~= sorted@.map_values(|s: String| s@));
    out
}


/// A module as `runtime.json` shows it: name, group, and the
/// `(action, key, mode)` rows of its effective bindings.
pub struct RuntimeModule {
    pub name: String,
    pub group: Option<String>,
    pub bindings: Vec<(String, String, String)>,
}

/// The modules of `runtime.json`, in load order: each module with its
/// group and the effective bindings that belong to it.
pub fn runtime_modules(state: &KaizenState) -> (r: Vec<RuntimeModule>)
    ensures
        r@.len() == state.modules@.len(),
        forall|i: int|
            0 <= i < r@.len() ==> {
                &&& (#[trigger] r@[i]).name@ == state.modules@[i].name@
                &&& opt_text(r@[i].group) == opt_text(state.modules@[i].group)
                &&& text_triples(r@[i].bindings@) == bindings_of_module(
                    apply_overrides(binding_views(state.bindings@), binding_views(state.overrides@)),
                    state.modules@[i].name@,
                )
            },
{
    let effective = state.effective_bindings();
    let mut r: Vec<RuntimeModule> = Vec::new();
    let mut i: usize = 0;
    while i < state.modules.len()
        invariant
            0 <= i <= state.modules@.len(),
            r@.len() == i,
            binding_views(effective@) == apply_overrides(binding_views(state.bindings@), binding_views(state.overrides@)),
            forall|j: int|
                0 <= j < i ==> {
                    &&& (#[trigger] r@[j]).name@ == state.modules@[j].name@
                    &&& opt_text(r@[j].group) == opt_text(state.modules@[j].group)
                    &&& text_triples(r@[j].bindings@) == bindings_of_module(
                        binding_views(effective@),
                        state.modules@[j].name@,
                    )
                },
        decreases state.modules@.len() - i,
    {
        let m = &state.modules[i];
        let group = match &m.group {
            Some(g) => Some(g.clone()),
            None => None,
        };
        let bindings = module_bindings(&effective, m.name.as_str());
        r.push(RuntimeModule { name: m.name.clone(), group, bindings });
        i = i + 1;
    }
    r
}


// ── enabled.toml ────────────────────────────────────────────────────────────

/// The string items of an array, in order (other items are skipped).
pub open spec fn string_values(items: Seq<toml::Value>) -> Seq<Seq<char>>
    decreases items.len(),
{
    if items.len() == 0 {
        Seq::empty()
    } else {
        let prev = string_values(items.drop_last());
        match toml_shape(items.last()) {
            TomlShape::Text(s) => prev.push(s@),
            _ => prev,
        }
    }
}

/// The module names an `enabled.toml` value lists: the strings of its
/// `enabled` array; none when there is no `enabled` array.
pub open spec fn enabled_names_of(v: toml::Value) -> Option<Seq<Seq<char>>> {
    match get_value(v, "enabled"@) {
        Some(a) => match toml_shape(a) {
            TomlShape::List(items) => Some(string_values(items@)),
            _ => None,
        },
        None => None,
    }
}

/// The enabled list of an `enabled.toml` text; none when the text is not a
/// TOML document or has no `enabled` array (then every module is enabled).
pub open spec fn enabled_list_of(content: Seq<char>) -> Option<Seq<Seq<char>>> {
    match toml_document(content) {
        Some(v) => enabled_names_of(v),
        None => None,
    }
}

/// `enabled_list_of`.
pub fn enabled_list_of_text(content: &str) -> (r: Option<Vec<String>>)
    ensures
        match enabled_list_of(content@) {
            Some(n) => r is Some && string_views(r->0@) == n,
            None => r is None,
        },
{
    let v = match parse_toml(content) {
        Some(v) => v,
        None => {
            return None;
        },
    };
    let a = match get_entry(&v, "enabled") {
        Some(a) => a,
        None => {
            return None;
        },
    };
    let items = match shape_of(&a) {
        TomlShape::List(items) => items,
        _ => {
            return None;
        },
    };
    let mut names: Vec<String> = Vec::new();
    let mut i: usize = 0;
    assert(items@.take(0) =~= Seq::<toml::Value>::empty());
    while i < items.len()
        invariant
            0 <= i <= items@.len(),
            string_views(names@) == string_values(items@.take(i as int)),
        decreases items@.len() - i,
    {
        proof {
            assert(items@.take(i + 1).drop_last() =~= items@.take(i as int));
            assert(items@.take(i + 1).last() == items@[i as int]);
        }
        match shape_of(&items[i]) {
            TomlShape::Text(s) => {
                let ghost before = names@;
                names.push(s);
                assert(string_views(names@) =~= string_views(before).push(names@[before.len() as int]@));
            },
            _ => {},
        }
        i = i + 1;
    }
    assert(items@.take(items@.len() as int) =~= items@);
    Some(names)
}

/// The `enabled.toml` value listing `names`: a table whose `enabled` entry
/// is the array of the names.
pub open spec fn enabled_list_value(names: Seq<Seq<char>>) -> toml::Value {
    toml_table_of(Map::empty().insert("enabled"@, toml_array_of(names.map_values(|n: Seq<char>| toml_string_of(n)))))
}

/// The text of an `enabled.toml` listing `enabled`: what `toml` writes for
/// `enabled_list_value`, when it can write it.
pub fn enabled_list_text(enabled: &Vec<String>) -> (r: Result<String, KaizenError>)
    ensures
        r is Ok <==> toml_renders(enabled_list_value(string_views(enabled@))),
        r matches Ok(s) ==> s@ == toml_text(enabled_list_value(string_views(enabled@))),
        r is Err ==> r matches Err(KaizenError::TomlSerialize(_)),
{
    let mut items: Vec<toml::Value> = Vec::new();
    let mut i: usize = 0;
    while i < enabled.len()
        invariant
            0 <= i <= enabled@.len(),
            items@.len() == i,
            forall|j: int| 0 <= j < i ==> #[trigger] items@[j] == toml_string_of(enabled@[j]@),
        decreases enabled@.len() - i,
    {
        items.push(text_value(enabled[i].clone()));
        i = i + 1;
    }
    assert(items@ =~= string_views(enabled@).map_values(|n: Seq<char>| toml_string_of(n)));
    let list = list_value(items);
    let ghost lv = list;
    let mut entries: Vec<(String, toml::Value)> = Vec::new();
    entries.push((String::from_str("enabled"), list));
    proof {
        let e = entries@;
        assert(entry_keys(e) =~= seq![e[0].0@]);
        assert(entries_map(e.drop_last()) =~= Map::<Seq<char>, toml::Value>::empty());
        assert(entries_map(e) =~= Map::<Seq<char>, toml::Value>::empty().insert("enabled"@, lv));
    }
    let x = table_value(entries);
    render_toml(&x)
}

} // verus!
