//! Plans produced for a workflow: the configuration handed to chezmoi and
//! the hooks run after each phase.
use vstd::prelude::*;

use crate::config::{DotfilesConfig, ExtraConfig, UserSettings};
use crate::progress::copy_strings;
use crate::strmap::StrMap;
use indexmap::IndexMap;

verus! {

/// `indexmap::IndexMap`, an insertion-ordered hash map.
#[verifier::external_type_specification]
#[verifier::external_body]
#[verifier::reject_recursive_types(K)]
#[verifier::reject_recursive_types(V)]
#[verifier::reject_recursive_types(S)]
pub struct ExIndexMap<K, V, S>(IndexMap<K, V, S>);

/// The entries of a feature-flag map, in the map's order (keys are
/// distinct, as in any `IndexMap`).
pub uninterp spec fn flag_entries(m: IndexMap<String, bool>) -> Seq<(Seq<char>, bool)>;

/// Entries after `IndexMap::insert`: an existing key keeps its place and
/// takes the new value; a new key goes last.
pub open spec fn indexed_insert(s: Seq<(Seq<char>, bool)>, k: Seq<char>, v: bool) -> Seq<(Seq<char>, bool)> {
    if exists|i: int| 0 <= i < s.len() && #[trigger] s[i].0 == k {
        let i = choose|i: int| 0 <= i < s.len() && #[trigger] s[i].0 == k;
        s.update(i, (k, v))
    } else {
        s.push((k, v))
    }
}

/// Keys of entries are distinct.
pub open spec fn distinct_keys(s: Seq<(Seq<char>, bool)>) -> bool {
    forall|i: int, j: int| 0 <= i < j < s.len() ==> #[trigger] s[i].0 != #[trigger] s[j].0
}

/// Calls `IndexMap::new()`: the map is empty.
#[verifier::external_body]
pub fn new_flags() -> (m: IndexMap<String, bool>)
    ensures
        flag_entries(m) == Seq::<(Seq<char>, bool)>::empty(),
{
    IndexMap::new()
}

/// Calls `IndexMap::insert`: an existing key keeps its place and takes the
/// new value, a new key is put last (as its documentation states).
#[verifier::external_body]
pub fn insert_flag(m: &mut IndexMap<String, bool>, key: String, value: bool)
    ensures
        flag_entries(*final(m)) == indexed_insert(flag_entries(*old(m)), key@, value),
{
    m.insert(key, value);
}

/// Iterates the map (`IndexMap::iter`) and copies its entries, in order;
/// the keys are distinct.
#[verifier::external_body]
pub fn flags_in_order(m: &IndexMap<String, bool>) -> (r: Vec<(String, bool)>)
    ensures
        r@.map_values(|e: (String, bool)| (e.0@, e.1)) == flag_entries(*m),
        distinct_keys(r@.map_values(|e: (String, bool)| (e.0@, e.1))),
{
    m.iter().map(|(k, v)| (k.clone(), *v)).collect()
}

/// Shell commands run after install, apply and update.
#[derive(Debug, Clone, Default)]
pub struct HookPlan {
    pub post_install: Vec<String>,
    pub post_apply: Vec<String>,
    pub post_update: Vec<String>,
}

/// What chezmoi is given: the dotfiles backend and source, the feature
/// flags, the settings, the extra packages and the variant selections.
pub struct ConfigPlan {
    pub backend: String,
    pub dotfiles_source: Option<String>,
    pub features_data: IndexMap<String, bool>,
    pub settings: UserSettings,
    pub extra: ExtraConfig,
    pub variants: StrMap<String>,
}


pub open spec fn texts(v: Vec<String>) -> Seq<Seq<char>> {
    v@.map_values(|s: String| s@)
}

pub open spec fn opt_text_of(o: Option<String>) -> Option<Seq<char>> {
    match o {
        Some(s) => Some(s@),
        None => None,
    }
}

fn copy_opt(o: &Option<String>) -> (r: Option<String>)
    ensures
        opt_text_of(r) == opt_text_of(*o),
{
    match o {
        Some(s) => Some(s.clone()),
        None => None,
    }
}

/// The configuration plan made from config-level settings alone: the
/// backend (empty when none is set), the source, the settings and the extra
/// packages, with no feature flags and no variant selections.
pub fn config_plan_from_settings(dotfiles: &DotfilesConfig, settings: &UserSettings, extra: &ExtraConfig) -> (r:
    ConfigPlan)
    ensures
        r.backend@ == match dotfiles.backend {
            Some(b) => b@,
            None => ""@,
        },
        opt_text_of(r.dotfiles_source) == opt_text_of(dotfiles.source),
        flag_entries(r.features_data) == Seq::<(Seq<char>, bool)>::empty(),
        opt_text_of(r.settings.layout) == opt_text_of(settings.layout),
        texts(r.extra.nix_packages) == texts(extra.nix_packages),
        texts(r.extra.brew_casks) == texts(extra.brew_casks),
        texts(r.extra.brew_formulas) == texts(extra.brew_formulas),
        texts(r.extra.brew_taps) == texts(extra.brew_taps),
        r.variants@ == Map::<Seq<char>, String>::empty(),
{
    let backend = match &dotfiles.backend {
        Some(b) => b.clone(),
        None => {
            proof {
                reveal_strlit("");
            }
            String::new()
        },
    };
    ConfigPlan {
        backend,
        dotfiles_source: copy_opt(&dotfiles.source),
        features_data: new_flags(),
        settings: UserSettings { layout: copy_opt(&settings.layout) },
        extra: ExtraConfig {
            nix_packages: copy_strings(&extra.nix_packages),
            brew_casks: copy_strings(&extra.brew_casks),
            brew_formulas: copy_strings(&extra.brew_formulas),
            brew_taps: copy_strings(&extra.brew_taps),
        },
        variants: StrMap::new(),
    }
}

} // verus!
