//! Declarations collected while the Steel modules are evaluated: modules,
//! packages, actions, key bindings and their user overrides, and the context
//! values that modules read and write.
use vstd::prelude::*;

use crate::strmap::StrMap;
use crate::text::{string_views, strip_start_char, trim_start_char_str};

verus! {

/// Evaluation phase: declarations are collected first, then applied.
#[derive(Debug, Clone, Copy, PartialEq, Eq, Structural)]
pub enum Phase {
    Collection,
    Apply,
}

/// A module declared with `declare-module`.
#[derive(Debug, Clone)]
pub struct ModuleDecl {
    pub name: String,
    pub os: Vec<String>,
    pub group: Option<String>,
    pub stability: String,
    pub description: String,
}

#[derive(Debug, Clone, Copy, PartialEq, Eq, Structural)]
pub enum PackageManager {
    Nix,
    Brew,
    Mise,
}

/// A package requested by a module.
#[derive(Debug, Clone)]
pub struct PackageDecl {
    pub manager: PackageManager,
    pub name: String,
}

/// An action declared with `define-action`.
#[derive(Debug, Clone)]
pub struct ActionDecl {
    pub id: String,
    pub description: String,
    pub mnemonic: Option<Vec<String>>,
}

/// A key binding of an action in a module.
#[derive(Debug, Clone)]
pub struct BindingDecl {
    pub module_name: String,
    pub action: String,
    pub key: String,
    pub mode: String,
}

/// A keyword-argument value: its text, and its items when it is a list.
#[derive(Debug, Clone)]
pub struct PlistValue {
    pub text: String,
    pub items: Option<Vec<String>>,
}

/// All plain declarations collected during evaluation (the Steel values of
/// hooks and callbacks are kept by the engine).
pub struct KaizenState {
    pub modules: Vec<ModuleDecl>,
    pub packages: Vec<PackageDecl>,
    pub actions: StrMap<ActionDecl>,
    /// Default bindings from feature modules.
    pub bindings: Vec<BindingDecl>,
    /// Binding overrides from the user's files, applied after the defaults.
    pub overrides: Vec<BindingDecl>,
    /// Context given when the engine was made; shadowed by `globals`.
    pub initial_context: StrMap<String>,
    /// Values written by `set-global!`.
    pub globals: StrMap<String>,
    /// Per-module values written by `set-module-config!`.
    pub module_configs: StrMap<StrMap<String>>,
    pub phase: Phase,
    /// Name of the module being loaded.
    pub current_module: String,
    /// Directory of the module being loaded.
    pub current_module_dir: Option<String>,
    /// Source directory of each loaded module.
    pub module_dirs: StrMap<String>,
}

// ── Bindings ────────────────────────────────────────────────────────────────

/// Plain view of a binding: module, action, key, mode.
pub type BindingView = (Seq<char>, Seq<char>, Seq<char>, Seq<char>);

pub open spec fn binding_view(b: BindingDecl) -> BindingView {
    (b.module_name@, b.action@, b.key@, b.mode@)
}

pub open spec fn binding_views(s: Seq<BindingDecl>) -> Seq<BindingView> {
    s.map_values(|b: BindingDecl| binding_view(b))
}

/// Two bindings are for the same action of the same module.
pub open spec fn same_target(a: BindingView, b: BindingView) -> bool {
    a.0 == b.0 && a.1 == b.1
}

/// Index of the first binding of `s` for the target of `ov`, from `from` on.
pub open spec fn find_target(s: Seq<BindingView>, ov: BindingView, from: int) -> Option<int>
    decreases s.len() - from,
{
    if from < 0 || from >= s.len() {
        None
    } else if same_target(s[from], ov) {
        Some(from)
    } else {
        find_target(s, ov, from + 1)
    }
}

/// `ov` replaces the first binding with its target, or is appended.
pub open spec fn apply_override(s: Seq<BindingView>, ov: BindingView) -> Seq<BindingView> {
    match find_target(s, ov, 0) {
        Some(j) => s.update(j, ov),
        None => s.push(ov),
    }
}

/// Defaults with the overrides applied in order.
pub open spec fn apply_overrides(defaults: Seq<BindingView>, overrides: Seq<BindingView>) -> Seq<BindingView>
    decreases overrides.len(),
{
    if overrides.len() == 0 {
        defaults
    } else {
        apply_override(apply_overrides(defaults, overrides.drop_last()), overrides.last())
    }
}

pub proof fn lemma_find_target_found(s: Seq<BindingView>, ov: BindingView, from: int, j: int)
    requires
        0 <= from <= j < s.len(),
        same_target(s[j], ov),
        forall|k: int| from <= k < j ==> !same_target(#[trigger] s[k], ov),
    ensures
        find_target(s, ov, from) == Some(j),
    decreases j - from,
{
    if from < j {
        lemma_find_target_found(s, ov, from + 1, j);
    }
}

pub proof fn lemma_find_target_none(s: Seq<BindingView>, ov: BindingView, from: int)
    requires
        0 <= from <= s.len(),
        forall|k: int| from <= k < s.len() ==> !same_target(#[trigger] s[k], ov),
    ensures
        find_target(s, ov, from) is None,
    decreases s.len() - from,
{
    if from < s.len() {
        lemma_find_target_none(s, ov, from + 1);
    }
}

impl BindingDecl {
    pub fn duplicate(&self) -> (r: Self)
        ensures
            binding_view(r) == binding_view(*self),
    {
        BindingDecl {
            module_name: self.module_name.clone(),
            action: self.action.clone(),
            key: self.key.clone(),
            mode: self.mode.clone(),
        }
    }
}

fn copy_bindings(v: &Vec<BindingDecl>) -> (r: Vec<BindingDecl>)
    ensures
        binding_views(r@) == binding_views(v@),
{
    let mut r: Vec<BindingDecl> = Vec::new();
    let mut i: usize = 0;
    while i < v.len()
        invariant
            0 <= i <= v@.len(),
            binding_views(r@) == binding_views(v@).take(i as int),
        decreases v@.len() - i,
    {
        let b = v[i].duplicate();
        let ghost before = binding_views(r@);
        r.push(b);
        assert(binding_views(r@) =~= before.push(binding_view(b)));
        assert(binding_views(v@).take(i + 1) =~= binding_views(v@).take(i as int).push(binding_view(v@[i as int])));
        i = i + 1;
    }
    assert(binding_views(v@).take(v@.len() as int) =~= binding_views(v@));
    r
}

/// Applies one override to `result` in place.
fn apply_override_exec(result: &mut Vec<BindingDecl>, ov: &BindingDecl)
    ensures
        binding_views(final(result)@) == apply_override(binding_views(old(result)@), binding_view(*ov)),
{
    let ghost s = binding_views(result@);
    let ghost ovv = binding_view(*ov);
    let mut j: usize = 0;
    while j < result.len()
        invariant
            0 <= j <= result@.len(),
            s == binding_views(result@),
            s == binding_views(old(result)@),
            ovv == binding_view(*ov),
            forall|k: int| 0 <= k < j ==> !same_target(#[trigger] s[k], ovv),
        decreases result@.len() - j,
    {
        if result[j].module_name.eq(&ov.module_name) && result[j].action.eq(&ov.action) {
            proof {
                assert(same_target(s[j as int], ovv));
                lemma_find_target_found(s, ovv, 0, j as int);
            }
            let b = ov.duplicate();
            result.set(j, b);
            assert(binding_views(result@) =~= s.update(j as int, ovv));
            return;
        }
        assert(!same_target(s[j as int], ovv));
        j = j + 1;
    }
    proof {
        lemma_find_target_none(s, ovv, 0);
    }
    let b = ov.duplicate();
    result.push(b);
    assert(binding_views(result@) =~= s.push(ovv));
}

/// Defaults with the overrides applied (`apply_overrides`).
pub fn effective_of(defaults: &Vec<BindingDecl>, overrides: &Vec<BindingDecl>) -> (r: Vec<BindingDecl>)
    ensures
        binding_views(r@) == apply_overrides(binding_views(defaults@), binding_views(overrides@)),
{
    let mut result = copy_bindings(defaults);
    let ghost d = binding_views(defaults@);
    let ghost o = binding_views(overrides@);
    let mut i: usize = 0;
    assert(o.take(0) =~= Seq::<BindingView>::empty());
    while i < overrides.len()
        invariant
            0 <= i <= overrides@.len(),
            d == binding_views(defaults@),
            o == binding_views(overrides@),
            binding_views(result@) == apply_overrides(d, o.take(i as int)),
        decreases overrides@.len() - i,
    {
        apply_override_exec(&mut result, &overrides[i]);
        proof {
            assert(o.take(i + 1).drop_last() =~= o.take(i as int));
            assert(o.take(i + 1).last() == binding_view(overrides@[i as int]));
        }
        i = i + 1;
    }
    assert(o.take(overrides@.len() as int) =~= o);
    result
}

// ── Context ─────────────────────────────────────────────────────────────────

/// `get-context`: a global when set, else the initial context value.
pub open spec fn context_value(globals: Map<Seq<char>, String>, initial: Map<Seq<char>, String>, key: Seq<char>) -> Option<
    Seq<char>,
> {
    if globals.contains_key(key) {
        Some(globals[key]@)
    } else if initial.contains_key(key) {
        Some(initial[key]@)
    } else {
        None
    }
}

pub open spec fn text_map(m: Map<Seq<char>, String>) -> Map<Seq<char>, Seq<char>> {
    m.map_values(|s: String| s@)
}

impl KaizenState {
    /// A state with nothing collected yet and the given context.
    pub fn new(initial_context: StrMap<String>) -> (s: Self)
        ensures
            s.modules@.len() == 0,
            s.packages@.len() == 0,
            s.actions@ == Map::<Seq<char>, ActionDecl>::empty(),
            s.bindings@.len() == 0,
            s.overrides@.len() == 0,
            s.initial_context@ == initial_context@,
            s.globals@ == Map::<Seq<char>, String>::empty(),
            s.module_configs@ == Map::<Seq<char>, StrMap<String>>::empty(),
            s.phase == Phase::Collection,
            s.current_module@ == Seq::<char>::empty(),
            s.current_module_dir is None,
            s.module_dirs@ == Map::<Seq<char>, String>::empty(),
    {
        KaizenState {
            modules: Vec::new(),
            packages: Vec::new(),
            actions: StrMap::new(),
            bindings: Vec::new(),
            overrides: Vec::new(),
            initial_context,
            globals: StrMap::new(),
            module_configs: StrMap::new(),
            phase: Phase::Collection,
            current_module: String::new(),
            current_module_dir: None,
            module_dirs: StrMap::new(),
        }
    }

    /// Effective bindings: the defaults with the user overrides applied on
    /// top. An override matches a binding with the same module and action
    /// (the first such binding); an unmatched override is appended.
    pub fn effective_bindings(&self) -> (r: Vec<BindingDecl>)
        ensures
            binding_views(r@) == apply_overrides(binding_views(self.bindings@), binding_views(self.overrides@)),
    {
        effective_of(&self.bindings, &self.overrides)
    }

    /// Messages for the effective bindings whose action was never declared.
    pub fn validate_bindings(&self) -> (r: Vec<String>)
        ensures
            string_views(r@) == unknown_action_messages(
                apply_overrides(binding_views(self.bindings@), binding_views(self.overrides@)),
                self.actions@.dom(),
            ),
    {
        let eff = self.effective_bindings();
        let ghost e = binding_views(eff@);
        let mut r: Vec<String> = Vec::new();
        let mut i: usize = 0;
        assert(e.take(0) =~= Seq::<BindingView>::empty());
        while i < eff.len()
            invariant
                0 <= i <= eff@.len(),
                e == binding_views(eff@),
                string_views(r@) == unknown_action_messages(e.take(i as int), self.actions@.dom()),
            decreases eff@.len() - i,
        {
            let b = &eff[i];
            proof {
                assert(e.take(i + 1).drop_last() =~= e.take(i as int));
                assert(e.take(i + 1).last() == binding_view(*b));
            }
            if !self.actions.contains_key(b.action.as_str()) {
                let mut m = String::from_str("unknown action '");
                m.append(b.action.as_str());
                m.append("' in module '");
                m.append(b.module_name.as_str());
                m.append("'");
                let ghost before = string_views(r@);
                r.push(m);
                assert(string_views(r@) =~= before.push(m@));
            }
            i = i + 1;
        }
        assert(e.take(eff@.len() as int) =~= e);
        r
    }

    /// `get-context`: the global value of `key`, else its initial value (a
    /// leading `:` of the key is dropped).
    pub fn get_context(&self, key: &str) -> (r: Option<String>)
        ensures
            match r {
                Some(v) => context_value(self.globals@, self.initial_context@, strip_start_char(key@, ':')) == Some(v@),
                None => context_value(self.globals@, self.initial_context@, strip_start_char(key@, ':')) is None,
            },
    {
        let k = trim_start_char_str(key, ':');
        match self.globals.get(k.as_str()) {
            Some(v) => Some(v.clone()),
            None => match self.initial_context.get(k.as_str()) {
                Some(v) => Some(v.clone()),
                None => None,
            },
        }
    }

    pub fn runtime_context(&self) -> (r: StrMap<String>)
        ensures
            text_map(r@) == text_map(self.initial_context@.union_prefer_right(self.globals@)),
    {
        let mut r: StrMap<String> = StrMap::new();
        let ie = self.initial_context.entries();
        let mut i: usize = 0;
        while i < ie.len()
            invariant
                0 <= i <= ie@.len(),
                forall|k: Seq<char>| #[trigger] r@.contains_key(k) <==> exists|j: int| 0 <= j < i && ie@[j].0@ == k,
                forall|j: int| 0 <= j < i ==> #[trigger] r@[ie@[j].0@]@ == ie@[j].1@,
                crate::strmap::strictly_sorted(crate::strmap::keys_of(ie@)),
            decreases ie@.len() - i,
        {
            let ghost before = r@;
            r.insert(ie[i].0.clone(), ie[i].1.clone());
            proof {
                assert forall|j: int| 0 <= j < i + 1 implies #[trigger] r@[ie@[j].0@]@ == ie@[j].1@ by {
                    if j < i {
                        assert(crate::strmap::keys_of(ie@)[j] == ie@[j].0@);
                        assert(crate::strmap::keys_of(ie@)[i as int] == ie@[i as int].0@);
                        crate::strmap::lemma_sorted_distinct(crate::strmap::keys_of(ie@), j, i as int);
                    }
                }
                assert forall|k: Seq<char>| #[trigger] r@.contains_key(k) <==> exists|j: int| 0 <= j < i + 1 && ie@[j].0@ == k by {
                    if r@.contains_key(k) && k != ie@[i as int].0@ {
                        assert(before.contains_key(k));
                    }
                    if exists|j: int| 0 <= j < i + 1 && ie@[j].0@ == k {
                        let j = choose|j: int| 0 <= j < i + 1 && ie@[j].0@ == k;
                        if j < i {
                            assert(before.contains_key(k));
                        }
                    }
                }
            }
            i = i + 1;
        }
        let ghost base = r@;
        let ge = self.globals.entries();
        let mut n: usize = 0;
        while n < ge.len()
            invariant
                0 <= n <= ge@.len(),
                forall|k: Seq<char>| #[trigger] r@.contains_key(k) <==> (base.contains_key(k) || exists|j: int|
                    0 <= j < n && ge@[j].0@ == k),
                forall|k: Seq<char>| #[trigger] r@.contains_key(k) && !(exists|j: int| 0 <= j < n && ge@[j].0@ == k) ==> r@[k]
                    == base[k],
                forall|j: int| 0 <= j < n ==> #[trigger] r@[ge@[j].0@]@ == ge@[j].1@,
                crate::strmap::strictly_sorted(crate::strmap::keys_of(ge@)),
            decreases ge@.len() - n,
        {
            let ghost before = r@;
            let ghost kn = ge@[n as int].0@;
            r.insert(ge[n].0.clone(), ge[n].1.clone());
            proof {
                assert forall|j: int| 0 <= j < n + 1 implies #[trigger] r@[ge@[j].0@]@ == ge@[j].1@ by {
                    if j < n {
                        assert(crate::strmap::keys_of(ge@)[j] == ge@[j].0@);
                        assert(crate::strmap::keys_of(ge@)[n as int] == ge@[n as int].0@);
                        crate::strmap::lemma_sorted_distinct(crate::strmap::keys_of(ge@), j, n as int);
                    }
                }
                assert forall|k: Seq<char>| #[trigger] r@.contains_key(k) <==> (base.contains_key(k) || exists|j: int|
                    0 <= j < n + 1 && ge@[j].0@ == k) by {
                    if exists|j: int| 0 <= j < n + 1 && ge@[j].0@ == k {
                        let j = choose|j: int| 0 <= j < n + 1 && ge@[j].0@ == k;
                        if j < n {
                            assert(before.contains_key(k));
                        }
                    }
                    if before.contains_key(k) {
                        assert(r@.contains_key(k));
                    }
                }
                assert forall|k: Seq<char>| #[trigger] r@.contains_key(k) && !(exists|j: int| 0 <= j < n + 1 && ge@[j].0@ == k)
                    implies r@[k] == base[k] by {
                    assert(k != kn);
                    assert(before.contains_key(k));
                }
            }
            n = n + 1;
        }
        proof {
            let u = self.initial_context@.union_prefer_right(self.globals@);
            assert forall|k: Seq<char>| #[trigger] text_map(r@).contains_key(k) <==> text_map(u).contains_key(k) by {
                if r@.contains_key(k) && !base.contains_key(k) {
                    let j = choose|j: int| 0 <= j < ge@.len() && ge@[j].0@ == k;
                    assert(self.globals@.contains_key(k));
                }
                if base.contains_key(k) {
                    let j = choose|j: int| 0 <= j < ie@.len() && ie@[j].0@ == k;
                    assert(self.initial_context@.contains_key(k));
                }
                if self.initial_context@.contains_key(k) {
                    let j = choose|j: int| 0 <= j < ie@.len() && ie@[j].0@ == k;
                    assert(base.contains_key(k));
                }
                if self.globals@.contains_key(k) {
                    let j = choose|j: int| 0 <= j < ge@.len() && ge@[j].0@ == k;
                    assert(r@.contains_key(k));
                }
            }
            assert forall|k: Seq<char>| #[trigger] text_map(r@).contains_key(k) implies text_map(r@)[k] == text_map(u)[k] by {
                if self.globals@.contains_key(k) {
                    let j = choose|j: int| 0 <= j < ge@.len() && ge@[j].0@ == k;
                    assert(self.globals@[ge@[j].0@] == ge@[j].1);
                } else {
                    if exists|j: int| 0 <= j < ge@.len() && ge@[j].0@ == k {
                        let j = choose|j: int| 0 <= j < ge@.len() && ge@[j].0@ == k;
                        assert(self.globals@.contains_key(k));
                    }
                    assert(base.contains_key(k));
                    let j = choose|j: int| 0 <= j < ie@.len() && ie@[j].0@ == k;
                    assert(self.initial_context@[ie@[j].0@] == ie@[j].1);
                }
            }
            assert(text_map(r@) =~= text_map(u));
        }
        r
    }
}

/// One message per effective binding whose action is not declared.
pub open spec fn unknown_action_messages(eff: Seq<BindingView>, declared: Set<Seq<char>>) -> Seq<Seq<char>>
    decreases eff.len(),
{
    if eff.len() == 0 {
        Seq::empty()
    } else {
        let prev = unknown_action_messages(eff.drop_last(), declared);
        let b = eff.last();
        if declared.contains(b.1) {
            prev
        } else {
            prev.push("unknown action '"@ + b.1 + "' in module '"@ + b.0 + "'"@)
        }
    }
}

// ── Keyword arguments ───────────────────────────────────────────────────────

/// Plain view of a keyword-argument value.
pub type PlistView = (Seq<char>, Option<Seq<Seq<char>>>);

pub open spec fn plist_view(v: PlistValue) -> PlistView {
    (
        v.text@,
        match v.items {
            Some(l) => Some(string_views(l@)),
            None => None,
        },
    )
}

pub open spec fn plist_views(s: Seq<PlistValue>) -> Seq<PlistView> {
    s.map_values(|v: PlistValue| plist_view(v))
}

pub open spec fn pair_views(s: Seq<(String, PlistValue)>) -> Seq<(Seq<char>, PlistView)> {
    s.map_values(|p: (String, PlistValue)| (p.0@, plist_view(p.1)))
}

/// `(k1 v1 k2 v2 ...)` read as `(key, value)` pairs; a leading `:` of a key
/// is dropped, and a trailing key without value is ignored.
pub open spec fn plist_pairs(items: Seq<PlistView>) -> Seq<(Seq<char>, PlistView)>
    decreases items.len(),
{
    if items.len() < 2 {
        Seq::empty()
    } else {
        seq![(strip_start_char(items[0].0, ':'), items[1])] + plist_pairs(items.skip(2))
    }
}

/// The value of the first pair with key `key`.
pub open spec fn plist_lookup(pairs: Seq<(Seq<char>, PlistView)>, key: Seq<char>) -> Option<PlistView>
    decreases pairs.len(),
{
    if pairs.len() == 0 {
        None
    } else if pairs[0].0 == key {
        Some(pairs[0].1)
    } else {
        plist_lookup(pairs.drop_first(), key)
    }
}

/// The strings of a keyword argument: the items of a list, or the value
/// itself; nothing when the key is absent.
pub open spec fn plist_strings(pairs: Seq<(Seq<char>, PlistView)>, key: Seq<char>) -> Seq<Seq<char>> {
    match plist_lookup(pairs, key) {
        Some(v) => match v.1 {
            Some(l) => l,
            None => seq![v.0],
        },
        None => Seq::empty(),
    }
}

/// The text of a keyword argument, if present.
pub open spec fn plist_text(pairs: Seq<(Seq<char>, PlistView)>, key: Seq<char>) -> Option<Seq<char>> {
    match plist_lookup(pairs, key) {
        Some(v) => Some(v.0),
        None => None,
    }
}

fn copy_strings_exec(v: &Vec<String>) -> (r: Vec<String>)
    ensures
        string_views(r@) == string_views(v@),
{
    let r = crate::progress::copy_strings(v);
    r
}

impl PlistValue {
    pub fn duplicate(&self) -> (r: Self)
        ensures
            plist_view(r) == plist_view(*self),
    {
        let items = match &self.items {
            Some(l) => Some(copy_strings_exec(l)),
            None => None,
        };
        PlistValue { text: self.text.clone(), items }
    }
}

/// Reads `(k1 v1 k2 v2 ...)` as pairs (`plist_pairs`).
pub fn parse_plist(items: &Vec<PlistValue>) -> (r: Vec<(String, PlistValue)>)
    ensures
        pair_views(r@) == plist_pairs(plist_views(items@)),
{
    let ghost iv = plist_views(items@);
    let mut r: Vec<(String, PlistValue)> = Vec::new();
    let mut i: usize = 0;
    assert(iv.skip(0) =~= iv);
    while items.len() - i > 1
        invariant
            0 <= i <= items@.len(),
            iv == plist_views(items@),
            pair_views(r@) + plist_pairs(iv.skip(i as int)) == plist_pairs(iv),
        decreases items@.len() - i,
    {
        let key = trim_start_char_str(items[i].text.as_str(), ':');
        let value = items[i + 1].duplicate();
        proof {
            let t = iv.skip(i as int);
            assert(t[0] == plist_view(items@[i as int]));
            assert(t[1] == plist_view(items@[i + 1]));
            assert(t.skip(2) =~= iv.skip(i + 2));
        }
        let ghost before = pair_views(r@);
        r.push((key, value));
        assert(pair_views(r@) =~= before.push((key@, plist_view(value))));
        i = i + 2;
    }
    proof {
        assert(plist_pairs(iv.skip(i as int)) =~= Seq::<(Seq<char>, PlistView)>::empty());
        assert(pair_views(r@) =~= pair_views(r@) + plist_pairs(iv.skip(i as int)));
    }
    r
}

fn lookup_index(pairs: &Vec<(String, PlistValue)>, key: &str) -> (r: Option<usize>)
    ensures
        match r {
            Some(i) => i < pairs@.len() && plist_lookup(pair_views(pairs@), key@) == Some(plist_view(pairs@[i as int].1)),
            None => plist_lookup(pair_views(pairs@), key@) is None,
        },
{
    let ghost pv = pair_views(pairs@);
    let mut i: usize = 0;
    assert(pv.skip(0) =~= pv);
    while i < pairs.len()
        invariant
            0 <= i <= pairs@.len(),
            pv == pair_views(pairs@),
            plist_lookup(pv, key@) == plist_lookup(pv.skip(i as int), key@),
        decreases pairs@.len() - i,
    {
        proof {
            assert(pv.skip(i as int).drop_first() =~= pv.skip(i + 1));
            assert(pv.skip(i as int)[0] == (pairs@[i as int].0@, plist_view(pairs@[i as int].1)));
        }
        if crate::text::str_eq(pairs[i].0.as_str(), key) {
            return Some(i);
        }
        i = i + 1;
    }
    assert(pv.skip(i as int) =~= Seq::<(Seq<char>, PlistView)>::empty());
    None
}

/// The strings of keyword argument `key` (`plist_strings`).
pub fn get_string_list(pairs: &Vec<(String, PlistValue)>, key: &str) -> (r: Vec<String>)
    ensures
        string_views(r@) == plist_strings(pair_views(pairs@), key@),
{
    match lookup_index(pairs, key) {
        Some(i) => match &pairs[i].1.items {
            Some(l) => copy_strings_exec(l),
            None => {
                let mut v: Vec<String> = Vec::new();
                v.push(pairs[i].1.text.clone());
                assert(string_views(v@) =~= seq![pairs@[i as int].1.text@]);
                v
            },
        },
        None => {
            let v: Vec<String> = Vec::new();
            assert(string_views(v@) =~= Seq::<Seq<char>>::empty());
            v
        },
    }
}

/// The text of keyword argument `key` (`plist_text`).
pub fn get_string_opt(pairs: &Vec<(String, PlistValue)>, key: &str) -> (r: Option<String>)
    ensures
        match r {
            Some(s) => plist_text(pair_views(pairs@), key@) == Some(s@),
            None => plist_text(pair_views(pairs@), key@) is None,
        },
{
    match lookup_index(pairs, key) {
        Some(i) => Some(pairs[i].1.text.clone()),
        None => None,
    }
}

// ── Recording declarations ──────────────────────────────────────────────────

pub open spec fn opt_text(o: Option<String>) -> Option<Seq<char>> {
    match o {
        Some(s) => Some(s@),
        None => None,
    }
}

/// Plain view of a module: name, systems, group, stability, description.
pub open spec fn module_view(m: ModuleDecl) -> (Seq<char>, Seq<Seq<char>>, Option<Seq<char>>, Seq<char>, Seq<char>) {
    (m.name@, string_views(m.os@), opt_text(m.group), m.stability@, m.description@)
}

/// The module declared by `declare-module` with these keyword arguments:
/// stability defaults to `stable`, the description to empty.
pub open spec fn declared_module(name: Seq<char>, pairs: Seq<(Seq<char>, PlistView)>) -> (Seq<char>, Seq<Seq<char>>, Option<
    Seq<char>,
>, Seq<char>, Seq<char>) {
    (
        name,
        plist_strings(pairs, "os"@),
        plist_text(pairs, "group"@),
        match plist_text(pairs, "stability"@) {
            Some(s) => s,
            None => "stable"@,
        },
        match plist_text(pairs, "description"@) {
            Some(d) => d,
            None => Seq::empty(),
        },
    )
}

/// Mnemonic of an action: the listed keys, or none when the list is empty.
pub open spec fn declared_mnemonic(pairs: Seq<(Seq<char>, PlistView)>) -> Option<Seq<Seq<char>>> {
    if plist_strings(pairs, "mnemonic"@).len() == 0 {
        None
    } else {
        Some(plist_strings(pairs, "mnemonic"@))
    }
}

pub open spec fn mnemonic_view(a: ActionDecl) -> Option<Seq<Seq<char>>> {
    match a.mnemonic {
        Some(l) => Some(string_views(l@)),
        None => None,
    }
}

impl KaizenState {
    /// `declare-module`: records the module (`declared_module`).
    pub fn declare_module(&mut self, name: String, pairs: &Vec<(String, PlistValue)>)
        ensures
            final(self).modules@.len() == old(self).modules@.len() + 1,
            forall|i: int| 0 <= i < old(self).modules@.len() ==> final(self).modules@[i] == old(self).modules@[i],
            module_view(final(self).modules@.last()) == declared_module(name@, pair_views(pairs@)),
            final(self).actions == old(self).actions,
            final(self).bindings == old(self).bindings,
            final(self).overrides == old(self).overrides,
    {
        let os = get_string_list(pairs, "os");
        let group = get_string_opt(pairs, "group");
        let stability = match get_string_opt(pairs, "stability") {
            Some(s) => s,
            None => String::from_str("stable"),
        };
        let description = match get_string_opt(pairs, "description") {
            Some(d) => d,
            None => String::new(),
        };
        self.modules.push(ModuleDecl { name, os, group, stability, description });
    }

    /// `define-action`: records the action under its id, replacing an
    /// earlier one with the same id.
    pub fn define_action(&mut self, id: String, description: String, pairs: &Vec<(String, PlistValue)>)
        ensures
            final(self).actions@.dom() == old(self).actions@.dom().insert(id@),
            forall|k: Seq<char>| k != id@ && #[trigger] old(self).actions@.contains_key(k) ==> final(self).actions@[k]
                == old(self).actions@[k],
            final(self).actions@[id@].id@ == id@,
            final(self).actions@[id@].description@ == description@,
            mnemonic_view(final(self).actions@[id@]) == declared_mnemonic(pair_views(pairs@)),
            final(self).bindings == old(self).bindings,
            final(self).overrides == old(self).overrides,
            final(self).modules == old(self).modules,
    {
        let keys = get_string_list(pairs, "mnemonic");
        let mnemonic = if keys.len() == 0 {
            None
        } else {
            Some(keys)
        };
        let key = id.clone();
        self.actions.insert(key, ActionDecl { id, description, mnemonic });
    }

    /// `action-mnemonic`: the mnemonic of a declared action.
    pub fn action_mnemonic(&self, id: &str) -> (r: Option<Vec<String>>)
        ensures
            match r {
                Some(l) => self.actions@.contains_key(id@) && mnemonic_view(self.actions@[id@]) == Some(string_views(l@)),
                None => !self.actions@.contains_key(id@) || mnemonic_view(self.actions@[id@]) is None,
            },
    {
        match self.actions.get(id) {
            Some(a) => match &a.mnemonic {
                Some(l) => Some(copy_strings_exec(l)),
                None => None,
            },
            None => None,
        }
    }

    /// `bind!`: a default binding of the module being loaded.
    pub fn bind(&mut self, action: String, key: String, mode: String)
        ensures
            binding_views(final(self).bindings@) == binding_views(old(self).bindings@).push(
                (old(self).current_module@, action@, key@, mode@),
            ),
            final(self).overrides == old(self).overrides,
            final(self).actions == old(self).actions,
            final(self).current_module == old(self).current_module,
    {
        let ghost before = binding_views(self.bindings@);
        let module_name = self.current_module.clone();
        self.bindings.push(BindingDecl { module_name, action, key, mode });
        assert(binding_views(self.bindings@) =~= before.push(binding_view(self.bindings@.last())));
    }

    /// `rebind!`: a user override, in normal mode.
    pub fn rebind(&mut self, module: String, action: String, key: String)
        ensures
            binding_views(final(self).overrides@) == binding_views(old(self).overrides@).push(
                (module@, action@, key@, "normal"@),
            ),
            final(self).bindings == old(self).bindings,
            final(self).actions == old(self).actions,
    {
        let ghost before = binding_views(self.overrides@);
        let b = BindingDecl { module_name: module, action, key, mode: String::from_str("normal") };
        self.overrides.push(b);
        assert(binding_views(self.overrides@) =~= before.push(binding_view(self.overrides@.last())));
    }

    /// `nix!`, `brew!`, `mise!`: a package request.
    pub fn add_package(&mut self, manager: PackageManager, name: String)
        ensures
            final(self).packages@ == old(self).packages@.push(PackageDecl { manager, name }),
            final(self).modules == old(self).modules,
    {
        self.packages.push(PackageDecl { manager, name });
    }

    /// `set-global!`: sets a global (a leading `:` of the key is dropped).
    pub fn set_global(&mut self, key: &str, value: String)
        ensures
            final(self).globals@ == old(self).globals@.insert(strip_start_char(key@, ':'), value),
            final(self).initial_context == old(self).initial_context,
    {
        let k = trim_start_char_str(key, ':');
        self.globals.insert(k, value);
    }

    /// `set-module-config!`: sets a value in a module's configuration (a
    /// leading `:` of the key is dropped).
    pub fn set_module_config(&mut self, module: String, key: &str, value: String)
        ensures
            final(self).module_configs@.dom() == old(self).module_configs@.dom().insert(module@),
            forall|m: Seq<char>| m != module@ && #[trigger] old(self).module_configs@.contains_key(m) ==> final(self).module_configs@[m] == old(self).module_configs@[m],
            final(self).module_configs@[module@]@ == (if old(self).module_configs@.contains_key(module@) {
                old(self).module_configs@[module@]@
            } else {
                Map::<Seq<char>, String>::empty()
            }).insert(strip_start_char(key@, ':'), value),
    {
        let k = trim_start_char_str(key, ':');
        let mut cfg: StrMap<String> = StrMap::new();
        match self.module_configs.get(module.as_str()) {
            Some(existing) => {
                let e = existing.entries();
                let mut i: usize = 0;
                while i < e.len()
                    invariant
                        0 <= i <= e@.len(),
                        forall|kk: Seq<char>| #[trigger] cfg@.contains_key(kk) <==> exists|j: int| 0 <= j < i && e@[j].0@ == kk,
                        forall|j: int| 0 <= j < i ==> #[trigger] cfg@[e@[j].0@] == e@[j].1,
                        crate::strmap::strictly_sorted(crate::strmap::keys_of(e@)),
                    decreases e@.len() - i,
                {
                    let ghost before = cfg@;
                    cfg.insert(e[i].0.clone(), e[i].1.clone());
                    proof {
                        assert forall|j: int| 0 <= j < i + 1 implies #[trigger] cfg@[e@[j].0@] == e@[j].1 by {
                            if j < i {
                                assert(crate::strmap::keys_of(e@)[j] == e@[j].0@);
                                assert(crate::strmap::keys_of(e@)[i as int] == e@[i as int].0@);
                                crate::strmap::lemma_sorted_distinct(crate::strmap::keys_of(e@), j, i as int);
                            }
                        }
                        assert forall|kk: Seq<char>| #[trigger] cfg@.contains_key(kk) <==> exists|j: int|
                            0 <= j < i + 1 && e@[j].0@ == kk by {
                            if cfg@.contains_key(kk) && kk != e@[i as int].0@ {
                                assert(before.contains_key(kk));
                            }
                            if exists|j: int| 0 <= j < i + 1 && e@[j].0@ == kk {
                                let j = choose|j: int| 0 <= j < i + 1 && e@[j].0@ == kk;
                                if j < i {
                                    assert(before.contains_key(kk));
                                }
                            }
                        }
                    }
                    i = i + 1;
                }
                proof {
                    let old_cfg = self.module_configs@[module@]@;
                    assert forall|kk: Seq<char>| #[trigger] cfg@.contains_key(kk) implies old_cfg.contains_key(kk) && cfg@[kk]
                        == old_cfg[kk] by {
                        let j = choose|j: int| 0 <= j < e@.len() && e@[j].0@ == kk;
                        assert(old_cfg[e@[j].0@] == e@[j].1);
                    }
                    assert forall|kk: Seq<char>| #[trigger] old_cfg.contains_key(kk) implies cfg@.contains_key(kk) by {
                        let j = choose|j: int| 0 <= j < e@.len() && e@[j].0@ == kk;
                    }
                    assert(cfg@ =~= old_cfg);
                }
            },
            None => {},
        }
        cfg.insert(k, value);
        self.module_configs.insert(module, cfg);
    }

    /// `get-module-config`: a value of a module's configuration.
    pub fn get_module_config(&self, module: &str, key: &str) -> (r: Option<String>)
        ensures
            match r {
                Some(v) => self.module_configs@.contains_key(module@) && self.module_configs@[module@]@.contains_key(
                    strip_start_char(key@, ':'),
                ) && self.module_configs@[module@]@[strip_start_char(key@, ':')] == v,
                None => !self.module_configs@.contains_key(module@) || !self.module_configs@[module@]@.contains_key(
                    strip_start_char(key@, ':'),
                ),
            },
    {
        let k = trim_start_char_str(key, ':');
        match self.module_configs.get(module) {
            Some(cfg) => match cfg.get(k.as_str()) {
                Some(v) => Some(v.clone()),
                None => None,
            },
            None => None,
        }
    }

    /// `use-hook` is refused once the apply phase has begun.
    pub fn check_use_hook(&self) -> (r: Result<(), String>)
        ensures
            self.phase == Phase::Collection <==> r is Ok,
            r matches Err(m) ==> m@ == "use-hook cannot be called during apply phase"@,
    {
        match self.phase {
            Phase::Apply => Err(String::from_str("use-hook cannot be called during apply phase")),
            Phase::Collection => Ok(()),
        }
    }

    /// A dry run: the initial context says `dry_run = "true"`.
    pub fn is_dry_run(&self) -> (b: bool)
        ensures
            b == (self.initial_context@.contains_key("dry_run"@) && self.initial_context@["dry_run"@]@ == "true"@),
    {
        match self.initial_context.get("dry_run") {
            Some(v) => crate::text::str_eq(v.as_str(), "true"),
            None => false,
        }
    }
}

// ── Laws ────────────────────────────────────────────────────────────────────

proof fn lemma_find_target_props(s: Seq<BindingView>, ov: BindingView, from: int)
    requires
        0 <= from,
    ensures
        match find_target(s, ov, from) {
            Some(j) => from <= j < s.len() && same_target(s[j], ov),
            None => forall|k: int| from <= k < s.len() ==> !same_target(#[trigger] s[k], ov),
        },
    decreases s.len() - from,
{
    if from < s.len() && !same_target(s[from], ov) {
        lemma_find_target_props(s, ov, from + 1);
    }
}

proof fn lemma_apply_override_props(s: Seq<BindingView>, ov: BindingView)
    ensures
        apply_override(s, ov).len() >= s.len(),
        forall|j: int| 0 <= j < s.len() && !same_target(#[trigger] s[j], ov) ==> apply_override(s, ov)[j] == s[j],
        apply_override(s, ov).contains(ov),
{
    lemma_find_target_props(s, ov, 0);
    let r = apply_override(s, ov);
    match find_target(s, ov, 0) {
        Some(j) => {
            assert(r[j] == ov);
        },
        None => {
            assert(r[s.len() as int] == ov);
        },
    }
}

/// User overrides win over defaults: a default binding whose module and
/// action no override names keeps its place and value, and the last
/// override of each module and action is among the effective bindings.
pub proof fn override_law(defaults: Seq<BindingView>, overrides: Seq<BindingView>)
    ensures
        apply_overrides(defaults, overrides).len() >= defaults.len(),
        forall|j: int|
            0 <= j < defaults.len() && (forall|k: int| 0 <= k < overrides.len() ==> !same_target(
                #[trigger] overrides[k],
                defaults[j],
            )) ==> #[trigger] apply_overrides(defaults, overrides)[j] == defaults[j],
        forall|k: int|
            0 <= k < overrides.len() && (forall|l: int| k < l < overrides.len() ==> !same_target(
                #[trigger] overrides[l],
                overrides[k],
            )) ==> apply_overrides(defaults, overrides).contains(#[trigger] overrides[k]),
    decreases overrides.len(),
{
    if overrides.len() > 0 {
        let o2 = overrides.drop_last();
        let ov = overrides.last();
        override_law(defaults, o2);
        let prev = apply_overrides(defaults, o2);
        lemma_apply_override_props(prev, ov);
        let r = apply_overrides(defaults, overrides);
        assert(r == apply_override(prev, ov));
        assert forall|j: int|
            0 <= j < defaults.len() && (forall|k: int| 0 <= k < overrides.len() ==> !same_target(
                #[trigger] overrides[k],
                defaults[j],
            )) implies #[trigger] r[j] == defaults[j] by {
            assert forall|k: int| 0 <= k < o2.len() implies !same_target(#[trigger] o2[k], defaults[j]) by {
                assert(o2[k] == overrides[k]);
            }
            assert(prev[j] == defaults[j]);
            assert(!same_target(overrides[overrides.len() - 1], defaults[j]));
            assert(!same_target(prev[j], ov));
        }
        assert forall|k: int|
            0 <= k < overrides.len() && (forall|l: int| k < l < overrides.len() ==> !same_target(
                #[trigger] overrides[l],
                overrides[k],
            )) implies r.contains(#[trigger] overrides[k]) by {
            if k < overrides.len() - 1 {
                assert forall|l: int| k < l < o2.len() implies !same_target(#[trigger] o2[l], o2[k]) by {
                    assert(o2[l] == overrides[l]);
                }
                assert(o2[k] == overrides[k]);
                assert(prev.contains(o2[k]));
                let p = choose|p: int| 0 <= p < prev.len() && prev[p] == o2[k];
                assert(!same_target(overrides[overrides.len() - 1], overrides[k]));
                assert(!same_target(prev[p], ov));
                assert(r[p] == prev[p]);
            }
        }
    }
}

/// `runtime.json` shows the context that `get-context` reads: a key is
/// there exactly when `get-context` finds it, with the same value (globals
/// shadow the initial context).
pub proof fn context_law(globals: Map<Seq<char>, String>, initial: Map<Seq<char>, String>, key: Seq<char>)
    ensures
        text_map(initial.union_prefer_right(globals)).contains_key(key) <==> context_value(globals, initial, key) is Some,
        text_map(initial.union_prefer_right(globals)).contains_key(key) ==> context_value(globals, initial, key)
            == Some(text_map(initial.union_prefer_right(globals))[key]),
{
}

} // verus!
