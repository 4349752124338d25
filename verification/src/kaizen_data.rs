//! `~/.config/kaizen/data.toml`: the runtime data that chezmoi templates
//! read. Kaizen owns a few keys (`layout`, `features`, `extra`, `variants`)
//! and keeps every other key of the file as it is.
use vstd::prelude::*;

use crate::config::ExtraConfig;
use crate::plan::{flag_entries, flags_in_order, new_flags, insert_flag, ConfigPlan};
use crate::strmap::{entries_map, keys_of, lemma_sorted_distinct, strictly_sorted, StrMap};
use crate::text::string_views;
use crate::error::KaizenError;
use crate::toml_doc::{
    entry_keys, flag_value, list_value, parse_toml, render_toml, shape_of, table_value, text_value, toml_array_of,
    toml_bool_of, toml_document, toml_renders, toml_shape, toml_string_of, toml_table_of, toml_text, TomlShape,
};
use indexmap::IndexMap;

verus! {

/// `toml::Value`, kept as it is for values kaizen does not own.
#[verifier::external_type_specification]
#[verifier::external_body]
pub struct ExTomlValue(toml::Value);

/// A value inside a table of the document.
pub enum DataLeaf {
    Text(String),
    Flag(bool),
    Texts(Vec<String>),
    /// Any other value, carried through unchanged.
    Raw(toml::Value),
}

/// A top-level value of the document.
pub enum DataValue {
    Leaf(DataLeaf),
    Table(StrMap<DataLeaf>),
}

/// The top-level table of a `data.toml` document.
pub struct DataDoc {
    pub entries: StrMap<DataValue>,
}

/// Read-only view of `data.toml` (features are plain booleans and settings
/// live at the top level).
pub struct KaizenData {
    pub layout: String,
    pub features: StrMap<bool>,
    pub variants: StrMap<String>,
    pub extra: ExtraConfig,
}

// ── Model ───────────────────────────────────────────────────────────────────

pub enum LeafView {
    Text(Seq<char>),
    Flag(bool),
    Texts(Seq<Seq<char>>),
    Raw(toml::Value),
}

pub enum ValueView {
    Leaf(LeafView),
    Table(Map<Seq<char>, LeafView>),
}

pub open spec fn leaf_view(l: DataLeaf) -> LeafView {
    match l {
        DataLeaf::Text(s) => LeafView::Text(s@),
        DataLeaf::Flag(b) => LeafView::Flag(b),
        DataLeaf::Texts(v) => LeafView::Texts(string_views(v@)),
        DataLeaf::Raw(t) => LeafView::Raw(t),
    }
}

pub open spec fn table_view(m: Map<Seq<char>, DataLeaf>) -> Map<Seq<char>, LeafView> {
    m.map_values(|l: DataLeaf| leaf_view(l))
}

pub open spec fn value_view(v: DataValue) -> ValueView {
    match v {
        DataValue::Leaf(l) => ValueView::Leaf(leaf_view(l)),
        DataValue::Table(t) => ValueView::Table(table_view(t@)),
    }
}

pub open spec fn doc_view(m: Map<Seq<char>, DataValue>) -> Map<Seq<char>, ValueView> {
    m.map_values(|v: DataValue| value_view(v))
}

/// The layout written to `data.toml`: the configured one, else `qwerty`.
pub open spec fn layout_of(plan: ConfigPlan) -> Seq<char> {
    match plan.settings.layout {
        Some(l) => l@,
        None => "qwerty"@,
    }
}

/// The table of `key` in `doc`, empty when absent or not a table.
pub open spec fn sub_table(doc: Map<Seq<char>, ValueView>, key: Seq<char>) -> Map<Seq<char>, LeafView> {
    if doc.contains_key(key) {
        match doc[key] {
            ValueView::Table(t) => t,
            ValueView::Leaf(_) => Map::empty(),
        }
    } else {
        Map::empty()
    }
}

/// A table with the feature flags set, in order.
pub open spec fn with_flags(t: Map<Seq<char>, LeafView>, flags: Seq<(Seq<char>, bool)>) -> Map<Seq<char>, LeafView>
    decreases flags.len(),
{
    if flags.len() == 0 {
        t
    } else {
        with_flags(t, flags.drop_last()).insert(flags.last().0, LeafView::Flag(flags.last().1))
    }
}

/// A table with the variant selections set, in order.
pub open spec fn with_selections(t: Map<Seq<char>, LeafView>, sel: Seq<(String, String)>) -> Map<Seq<char>, LeafView>
    decreases sel.len(),
{
    if sel.len() == 0 {
        t
    } else {
        with_selections(t, sel.drop_last()).insert(sel.last().0@, LeafView::Text(sel.last().1@))
    }
}

/// The `[extra]` table of the extra packages.
pub open spec fn extra_table_of(e: ExtraConfig) -> Map<Seq<char>, LeafView> {
    Map::empty().insert("nix_packages"@, LeafView::Texts(string_views(e.nix_packages@))).insert(
        "brew_casks"@,
        LeafView::Texts(string_views(e.brew_casks@)),
    ).insert("brew_formulas"@, LeafView::Texts(string_views(e.brew_formulas@))).insert(
        "brew_taps"@,
        LeafView::Texts(string_views(e.brew_taps@)),
    )
}

/// `data.toml` after the plan is merged into `doc`: the layout is set, the
/// plan's feature flags are set over the existing ones, `[extra]` is
/// replaced (removed when there is nothing extra), the plan's variant
/// selections are set over the existing ones (the table is removed when it
/// ends up empty); every other key is kept.
pub open spec fn merged(doc: Map<Seq<char>, ValueView>, plan: ConfigPlan) -> Map<Seq<char>, ValueView> {
    let t1 = doc.insert("layout"@, ValueView::Leaf(LeafView::Text(layout_of(plan))));
    let t2 = t1.insert("features"@, ValueView::Table(with_flags(sub_table(t1, "features"@), flag_entries(plan.features_data))));
    let t3 = if plan.extra.empty() {
        t2.remove("extra"@)
    } else {
        t2.insert("extra"@, ValueView::Table(extra_table_of(plan.extra)))
    };
    let v = with_selections(sub_table(t3, "variants"@), plan.variants.pairs());
    if v.dom().is_empty() {
        t3.remove("variants"@)
    } else {
        t3.insert("variants"@, ValueView::Table(v))
    }
}

/// The four keys that kaizen owns are distinct.
pub proof fn lemma_owned_keys_distinct()
    ensures
        "layout"@ != "features"@,
        "layout"@ != "extra"@,
        "layout"@ != "variants"@,
        "features"@ != "extra"@,
        "features"@ != "variants"@,
        "extra"@ != "variants"@,
{
    reveal_strlit("layout");
    reveal_strlit("features");
    reveal_strlit("extra");
    reveal_strlit("variants");
    assert("layout"@.len() != "features"@.len());
    assert("layout"@.len() != "extra"@.len());
    assert("layout"@.len() != "variants"@.len());
    assert("features"@.len() != "extra"@.len());
    assert("features"@[0] != "variants"@[0]);
    assert("extra"@.len() != "variants"@.len());
}

/// `data.toml` generated from scratch: the layout, the plan's feature
/// flags, `[extra]` when there is something extra, and `[variants]` when
/// the plan selects variants.
pub open spec fn generated(plan: ConfigPlan) -> Map<Seq<char>, ValueView> {
    let t1 = Map::empty().insert("layout"@, ValueView::Leaf(LeafView::Text(layout_of(plan))));
    let t2 = t1.insert("features"@, ValueView::Table(with_flags(Map::empty(), flag_entries(plan.features_data))));
    let t3 = if plan.extra.empty() {
        t2
    } else {
        t2.insert("extra"@, ValueView::Table(extra_table_of(plan.extra)))
    };
    let v = with_selections(Map::empty(), plan.variants.pairs());
    if v.dom().is_empty() {
        t3
    } else {
        t3.insert("variants"@, ValueView::Table(v))
    }
}

// ── Executable ──────────────────────────────────────────────────────────────

fn texts(v: &Vec<String>) -> (r: DataLeaf)
    ensures
        leaf_view(r) == LeafView::Texts(string_views(v@)),
{
    let c = crate::progress::copy_strings(v);
    DataLeaf::Texts(c)
}

/// The `[extra]` table (`extra_table_of`).
pub fn extra_table(extra: &ExtraConfig) -> (r: StrMap<DataLeaf>)
    ensures
        table_view(r@) == extra_table_of(*extra),
{
    let mut t: StrMap<DataLeaf> = StrMap::new();
    t.insert(String::from_str("nix_packages"), texts(&extra.nix_packages));
    t.insert(String::from_str("brew_casks"), texts(&extra.brew_casks));
    t.insert(String::from_str("brew_formulas"), texts(&extra.brew_formulas));
    t.insert(String::from_str("brew_taps"), texts(&extra.brew_taps));
    assert(table_view(t@) =~= extra_table_of(*extra));
    t
}

/// Takes `key`'s table out of `entries` (an empty table when it is absent
/// or not a table).
fn take_table(entries: &mut StrMap<DataValue>, key: &str) -> (r: StrMap<DataLeaf>)
    ensures
        final(entries)@ == old(entries)@.remove(key@),
        table_view(r@) == sub_table(doc_view(old(entries)@), key@),
{
    let ghost before = doc_view(entries@);
    match entries.remove(key) {
        Some(DataValue::Table(t)) => t,
        _ => {
            let t: StrMap<DataLeaf> = StrMap::new();
            assert(table_view(t@) =~= Map::<Seq<char>, LeafView>::empty());
            t
        },
    }
}

/// Sets the feature flags of `flags` in `t`, in order.
fn set_flags(t: &mut StrMap<DataLeaf>, flags: &IndexMap<String, bool>)
    ensures
        table_view(final(t)@) == with_flags(table_view(old(t)@), flag_entries(*flags)),
{
    let entries = flags_in_order(flags);
    let ghost fe = flag_entries(*flags);
    let ghost start = table_view(t@);
    let mut i: usize = 0;
    assert(fe.take(0) =~= Seq::<(Seq<char>, bool)>::empty());
    while i < entries.len()
        invariant
            0 <= i <= entries@.len(),
            entries@.map_values(|e: (String, bool)| (e.0@, e.1)) == fe,
            start == table_view(old(t)@),
            table_view(t@) == with_flags(start, fe.take(i as int)),
        decreases entries@.len() - i,
    {
        let ghost before = t@;
        proof {
            assert(fe.take(i + 1).drop_last() =~= fe.take(i as int));
            assert(fe[i as int] == (entries@[i as int].0@, entries@[i as int].1));
        }
        t.insert(entries[i].0.clone(), DataLeaf::Flag(entries[i].1));
        assert(table_view(t@) =~= table_view(before).insert(entries@[i as int].0@, LeafView::Flag(entries@[i as int].1)));
        i = i + 1;
    }
    assert(fe.take(entries@.len() as int) =~= fe);
}

/// Sets the variant selections of `sel` in `t`, by slot.
fn set_selections(t: &mut StrMap<DataLeaf>, sel: &StrMap<String>)
    ensures
        table_view(final(t)@) == with_selections(table_view(old(t)@), sel.pairs()),
{
    let e = sel.entries();
    let ghost start = table_view(t@);
    let mut i: usize = 0;
    assert(e@.take(0) =~= Seq::<(String, String)>::empty());
    while i < e.len()
        invariant
            0 <= i <= e@.len(),
            e@ == sel.pairs(),
            start == table_view(old(t)@),
            table_view(t@) == with_selections(start, e@.take(i as int)),
        decreases e@.len() - i,
    {
        let ghost before = t@;
        proof {
            assert(e@.take(i + 1).drop_last() =~= e@.take(i as int));
            assert(e@.take(i + 1).last() == e@[i as int]);
        }
        t.insert(e[i].0.clone(), DataLeaf::Text(e[i].1.clone()));
        assert(table_view(t@) =~= table_view(before).insert(e@[i as int].0@, LeafView::Text(e@[i as int].1@)));
        i = i + 1;
    }
    assert(e@.take(e@.len() as int) =~= e@);
}

fn layout_text(plan: &ConfigPlan) -> (r: String)
    ensures
        r@ == layout_of(*plan),
{
    match &plan.settings.layout {
        Some(l) => l.clone(),
        None => String::from_str("qwerty"),
    }
}

/// Merges the kaizen-managed keys of `plan` into the existing document
/// (`merged`); with no existing document this starts from an empty one.
pub fn merge_kaizen_data(existing: Option<DataDoc>, plan: &ConfigPlan) -> (r: DataDoc)
    ensures
        doc_view(r.entries@) == merged(
            match existing {
                Some(d) => doc_view(d.entries@),
                None => Map::empty(),
            },
            *plan,
        ),
{
    let mut entries = match existing {
        Some(d) => d.entries,
        None => {
            let m: StrMap<DataValue> = StrMap::new();
            assert(doc_view(m@) =~= Map::<Seq<char>, ValueView>::empty());
            m
        },
    };
    let ghost d0 = doc_view(entries@);
    entries.insert(String::from_str("layout"), DataValue::Leaf(DataLeaf::Text(layout_text(plan))));
    let ghost t1 = d0.insert("layout"@, ValueView::Leaf(LeafView::Text(layout_of(*plan))));
    assert(doc_view(entries@) =~= t1);
    let mut features = take_table(&mut entries, "features");
    set_flags(&mut features, &plan.features_data);
    let ghost fv = table_view(features@);
    let ghost before_f = entries@;
    entries.insert(String::from_str("features"), DataValue::Table(features));
    let ghost t2 = t1.insert("features"@, ValueView::Table(fv));
    assert(doc_view(entries@) =~= t2);
    if plan.extra.is_empty() {
        let _ = entries.remove("extra");
        assert(doc_view(entries@) =~= t2.remove("extra"@));
    } else {
        let x = extra_table(&plan.extra);
        let ghost xv = table_view(x@);
        entries.insert(String::from_str("extra"), DataValue::Table(x));
        assert(doc_view(entries@) =~= t2.insert("extra"@, ValueView::Table(xv)));
    }
    let ghost t3 = doc_view(entries@);
    let mut variants = take_table(&mut entries, "variants");
    set_selections(&mut variants, &plan.variants);
    let ghost vv = table_view(variants@);
    let count = variants.entries().len();
    assert(vv.dom() =~= variants@.dom());
    proof {
        vstd::set_lib::lemma_set_empty_equivalency_len(vv.dom());
    }
    if count == 0 {
        assert(vv.dom().is_empty());
        assert(doc_view(entries@) =~= t3.remove("variants"@));
    } else {
        assert(!vv.dom().is_empty());
        entries.insert(String::from_str("variants"), DataValue::Table(variants));
        assert(doc_view(entries@) =~= t3.insert("variants"@, ValueView::Table(vv)));
    }
    DataDoc { entries }
}

/// The document of a plan from scratch (`generated`).
pub fn generate_kaizen_data_doc(plan: &ConfigPlan) -> (r: DataDoc)
    ensures
        doc_view(r.entries@) == generated(*plan),
{
    let mut entries: StrMap<DataValue> = StrMap::new();
    entries.insert(String::from_str("layout"), DataValue::Leaf(DataLeaf::Text(layout_text(plan))));
    let mut features: StrMap<DataLeaf> = StrMap::new();
    assert(table_view(features@) =~= Map::<Seq<char>, LeafView>::empty());
    set_flags(&mut features, &plan.features_data);
    let ghost fv = table_view(features@);
    entries.insert(String::from_str("features"), DataValue::Table(features));
    let ghost t2 = Map::<Seq<char>, ValueView>::empty().insert(
        "layout"@,
        ValueView::Leaf(LeafView::Text(layout_of(*plan))),
    ).insert("features"@, ValueView::Table(fv));
    assert(doc_view(entries@) =~= t2);
    if !plan.extra.is_empty() {
        let x = extra_table(&plan.extra);
        let ghost xv = table_view(x@);
        entries.insert(String::from_str("extra"), DataValue::Table(x));
        assert(doc_view(entries@) =~= t2.insert("extra"@, ValueView::Table(xv)));
    }
    let ghost t3 = doc_view(entries@);
    let mut variants: StrMap<DataLeaf> = StrMap::new();
    assert(table_view(variants@) =~= Map::<Seq<char>, LeafView>::empty());
    set_selections(&mut variants, &plan.variants);
    let ghost vv = table_view(variants@);
    let count = variants.entries().len();
    assert(vv.dom() =~= variants@.dom());
    proof {
        vstd::set_lib::lemma_set_empty_equivalency_len(vv.dom());
    }
    if count != 0 {
        entries.insert(String::from_str("variants"), DataValue::Table(variants));
        assert(doc_view(entries@) =~= t3.insert("variants"@, ValueView::Table(vv)));
    }
    DataDoc { entries }
}

/// A copy of a string map.
pub fn copy_text_map(m: &StrMap<String>) -> (r: StrMap<String>)
    ensures
        r@ == m@,
{
    let e = m.entries();
    let mut r: StrMap<String> = StrMap::new();
    let mut i: usize = 0;
    while i < e.len()
        invariant
            0 <= i <= e@.len(),
            strictly_sorted(keys_of(e@)),
            forall|k: Seq<char>| #[trigger] m@.contains_key(k) <==> exists|j: int| 0 <= j < e@.len() && e@[j].0@ == k,
            forall|j: int| 0 <= j < e@.len() ==> #[trigger] m@[e@[j].0@] == e@[j].1,
            forall|k: Seq<char>| #[trigger] r@.contains_key(k) <==> exists|j: int| 0 <= j < i && e@[j].0@ == k,
            forall|j: int| 0 <= j < i ==> #[trigger] r@[e@[j].0@] == e@[j].1,
        decreases e@.len() - i,
    {
        let ghost before = r@;
        r.insert(e[i].0.clone(), e[i].1.clone());
        proof {
            assert forall|j: int| 0 <= j < i + 1 implies #[trigger] r@[e@[j].0@] == e@[j].1 by {
                if j < i {
                    assert(keys_of(e@)[j] == e@[j].0@);
                    assert(keys_of(e@)[i as int] == e@[i as int].0@);
                    lemma_sorted_distinct(keys_of(e@), j, i as int);
                }
            }
            assert forall|k: Seq<char>| #[trigger] r@.contains_key(k) <==> exists|j: int| 0 <= j < i + 1 && e@[j].0@ == k by {
                if r@.contains_key(k) && k != e@[i as int].0@ {
                    assert(before.contains_key(k));
                }
                if exists|j: int| 0 <= j < i + 1 && e@[j].0@ == k {
                    let j = choose|j: int| 0 <= j < i + 1 && e@[j].0@ == k;
                    if j < i {
                        assert(before.contains_key(k));
                    }
                }
            }
        }
        i = i + 1;
    }
    proof {
        assert forall|k: Seq<char>| #[trigger] r@.contains_key(k) implies r@[k] == m@[k] by {
            let j = choose|j: int| 0 <= j < e@.len() && e@[j].0@ == k;
        }
        assert(r@ =~= m@);
    }
    r
}

fn copy_extra(e: &ExtraConfig) -> (r: ExtraConfig)
    ensures
        string_views(r.nix_packages@) == string_views(e.nix_packages@),
        string_views(r.brew_casks@) == string_views(e.brew_casks@),
        string_views(r.brew_formulas@) == string_views(e.brew_formulas@),
        string_views(r.brew_taps@) == string_views(e.brew_taps@),
{
    ExtraConfig {
        nix_packages: crate::progress::copy_strings(&e.nix_packages),
        brew_casks: crate::progress::copy_strings(&e.brew_casks),
        brew_formulas: crate::progress::copy_strings(&e.brew_formulas),
        brew_taps: crate::progress::copy_strings(&e.brew_taps),
    }
}

/// Feature flags of a map, by increasing name.
pub open spec fn flags_of(pairs: Seq<(String, bool)>) -> Seq<(Seq<char>, bool)> {
    pairs.map_values(|p: (String, bool)| (p.0@, p.1))
}

impl KaizenData {
    /// The configuration plan this data describes: chezmoi backend, no
    /// source, the features by name, the layout, the extra packages and
    /// the variant selections.
    pub fn to_plan(&self) -> (r: ConfigPlan)
        ensures
            r.backend@ == "chezmoi"@,
            r.dotfiles_source is None,
            flag_entries(r.features_data) == flags_of(self.features.pairs()),
            r.settings.layout matches Some(l) && l@ == self.layout@,
            string_views(r.extra.nix_packages@) == string_views(self.extra.nix_packages@),
            string_views(r.extra.brew_casks@) == string_views(self.extra.brew_casks@),
            string_views(r.extra.brew_formulas@) == string_views(self.extra.brew_formulas@),
            string_views(r.extra.brew_taps@) == string_views(self.extra.brew_taps@),
            r.variants@ == self.variants@,
    {
        let e = self.features.entries();
        let mut flags = new_flags();
        let mut i: usize = 0;
        assert(flags_of(e@).take(0) =~= Seq::<(Seq<char>, bool)>::empty());
        while i < e.len()
            invariant
                0 <= i <= e@.len(),
                e@ == self.features.pairs(),
                strictly_sorted(keys_of(e@)),
                flag_entries(flags) == flags_of(e@).take(i as int),
            decreases e@.len() - i,
        {
            let ghost before = flag_entries(flags);
            insert_flag(&mut flags, e[i].0.clone(), e[i].1);
            proof {
                assert forall|j: int| 0 <= j < before.len() implies #[trigger] before[j].0 != e@[i as int].0@ by {
                    assert(before[j] == flags_of(e@)[j]);
                    assert(keys_of(e@)[j] == e@[j].0@);
                    assert(keys_of(e@)[i as int] == e@[i as int].0@);
                    lemma_sorted_distinct(keys_of(e@), j, i as int);
                }
                assert(flags_of(e@).take(i + 1) =~= before.push((e@[i as int].0@, e@[i as int].1)));
            }
            i = i + 1;
        }
        assert(flags_of(e@).take(e@.len() as int) =~= flags_of(e@));
        ConfigPlan {
            backend: String::from_str("chezmoi"),
            dotfiles_source: None,
            features_data: flags,
            settings: crate::config::UserSettings { layout: Some(self.layout.clone()) },
            extra: copy_extra(&self.extra),
            variants: copy_text_map(&self.variants),
        }
    }
}

/// `data.toml` with its `[variants]` table replaced by `sel` (and removed
/// when `sel` is empty); every other key is kept.
pub open spec fn replaced_variants(doc: Map<Seq<char>, ValueView>, sel: Map<Seq<char>, String>) -> Map<Seq<char>, ValueView> {
    let t = doc.remove("variants"@);
    if sel.dom().is_empty() {
        t
    } else {
        t.insert("variants"@, ValueView::Table(sel.map_values(|s: String| LeafView::Text(s@))))
    }
}

/// The variant selections a document holds: the text entries of its
/// `[variants]` table.
pub open spec fn selections_in(doc: Map<Seq<char>, ValueView>) -> Map<Seq<char>, Seq<char>> {
    let t = sub_table(doc, "variants"@);
    Map::new(
        |k: Seq<char>| t.contains_key(k) && t[k] is Text,
        |k: Seq<char>| t[k]->Text_0,
    )
}

/// Replaces the `[variants]` table by `selections` (`replaced_variants`).
pub fn write_variant_selections_doc(existing: Option<DataDoc>, selections: &StrMap<String>) -> (r: DataDoc)
    ensures
        doc_view(r.entries@) == replaced_variants(
            match existing {
                Some(d) => doc_view(d.entries@),
                None => Map::empty(),
            },
            selections@,
        ),
{
    let mut entries = match existing {
        Some(d) => d.entries,
        None => {
            let m: StrMap<DataValue> = StrMap::new();
            assert(doc_view(m@) =~= Map::<Seq<char>, ValueView>::empty());
            m
        },
    };
    let ghost d0 = doc_view(entries@);
    let _ = entries.remove("variants");
    assert(doc_view(entries@) =~= d0.remove("variants"@));
    let mut table: StrMap<DataLeaf> = StrMap::new();
    assert(table_view(table@) =~= Map::<Seq<char>, LeafView>::empty());
    set_selections(&mut table, selections);
    let e = selections.entries();
    let count = e.len();
    proof {
        let tv = table_view(table@);
        assert forall|a: int, b: int| 0 <= a < b < e@.len() implies #[trigger] e@[a].0@ != #[trigger] e@[b].0@ by {
            assert(keys_of(e@)[a] == e@[a].0@);
            assert(keys_of(e@)[b] == e@[b].0@);
            lemma_sorted_distinct(keys_of(e@), a, b);
        }
        assert forall|k: Seq<char>| #[trigger] tv.contains_key(k) <==> selections@.contains_key(k) by {
            lemma_selections_keys(Map::empty(), e@, k);
        }
        assert forall|k: Seq<char>| #[trigger] tv.contains_key(k) implies tv[k] == LeafView::Text(selections@[k]@) by {
            lemma_selections_keys(Map::empty(), e@, k);
            let i = choose|i: int| 0 <= i < e@.len() && e@[i].0@ == k;
            assert(selections@[e@[i].0@] == e@[i].1);
            lemma_with_selections(Map::empty(), e@, k);
        }
        assert(tv =~= selections@.map_values(|s: String| LeafView::Text(s@)));
        vstd::set_lib::lemma_set_empty_equivalency_len(selections@.dom());
    }
    if count > 0 {
        assert(!selections@.dom().is_empty());
        entries.insert(String::from_str("variants"), DataValue::Table(table));
    } else {
        assert(selections@.dom().is_empty());
    }
    DataDoc { entries }
}

proof fn lemma_selections_keys(t: Map<Seq<char>, LeafView>, sel: Seq<(String, String)>, k: Seq<char>)
    ensures
        with_selections(t, sel).contains_key(k) <==> (t.contains_key(k) || exists|i: int|
            0 <= i < sel.len() && sel[i].0@ == k),
    decreases sel.len(),
{
    if sel.len() > 0 {
        lemma_selections_keys(t, sel.drop_last(), k);
        if exists|i: int| 0 <= i < sel.len() - 1 && sel.drop_last()[i].0@ == k {
            let i = choose|i: int| 0 <= i < sel.len() - 1 && sel.drop_last()[i].0@ == k;
            assert(sel[i].0@ == k);
        }
        if exists|i: int| 0 <= i < sel.len() && sel[i].0@ == k {
            let i = choose|i: int| 0 <= i < sel.len() && sel[i].0@ == k;
            if i < sel.len() - 1 {
                assert(sel.drop_last()[i].0@ == k);
            }
        }
    }
}

// ── Laws ────────────────────────────────────────────────────────────────────

pub proof fn lemma_with_flags(t: Map<Seq<char>, LeafView>, flags: Seq<(Seq<char>, bool)>, k: Seq<char>)
    requires
        crate::plan::distinct_keys(flags),
    ensures
        (exists|i: int| 0 <= i < flags.len() && #[trigger] flags[i].0 == k) ==> {
            let i = choose|i: int| 0 <= i < flags.len() && #[trigger] flags[i].0 == k;
            with_flags(t, flags).contains_key(k) && with_flags(t, flags)[k] == LeafView::Flag(flags[i].1)
        },
        !(exists|i: int| 0 <= i < flags.len() && #[trigger] flags[i].0 == k) ==> (with_flags(t, flags).contains_key(k)
            == t.contains_key(k) && (t.contains_key(k) ==> with_flags(t, flags)[k] == t[k])),
    decreases flags.len(),
{
    if flags.len() > 0 {
        let f2 = flags.drop_last();
        assert(crate::plan::distinct_keys(f2)) by {
            assert forall|a: int, b: int| 0 <= a < b < f2.len() implies #[trigger] f2[a].0 != #[trigger] f2[b].0 by {
                assert(f2[a] == flags[a] && f2[b] == flags[b]);
            }
        }
        lemma_with_flags(t, f2, k);
        if exists|i: int| 0 <= i < flags.len() && #[trigger] flags[i].0 == k {
            let i = choose|i: int| 0 <= i < flags.len() && #[trigger] flags[i].0 == k;
            if i < flags.len() - 1 {
                assert(f2[i].0 == k);
                let i2 = choose|i: int| 0 <= i < f2.len() && #[trigger] f2[i].0 == k;
                if i2 != i {
                    assert(flags[i2].0 == k);
                }
                assert(flags.last().0 != k);
            }
        } else {
            assert forall|i: int| 0 <= i < f2.len() implies #[trigger] f2[i].0 != k by {
                assert(f2[i] == flags[i]);
            }
            assert(flags[flags.len() - 1].0 != k);
        }
    }
}

pub proof fn lemma_with_selections(t: Map<Seq<char>, LeafView>, sel: Seq<(String, String)>, k: Seq<char>)
    requires
        forall|a: int, b: int| 0 <= a < b < sel.len() ==> #[trigger] sel[a].0@ != #[trigger] sel[b].0@,
    ensures
        (exists|i: int| 0 <= i < sel.len() && #[trigger] sel[i].0@ == k) ==> {
            let i = choose|i: int| 0 <= i < sel.len() && #[trigger] sel[i].0@ == k;
            with_selections(t, sel).contains_key(k) && with_selections(t, sel)[k] == LeafView::Text(sel[i].1@)
        },
        !(exists|i: int| 0 <= i < sel.len() && #[trigger] sel[i].0@ == k) ==> (with_selections(t, sel).contains_key(k)
            == t.contains_key(k) && (t.contains_key(k) ==> with_selections(t, sel)[k] == t[k])),
    decreases sel.len(),
{
    if sel.len() > 0 {
        let s2 = sel.drop_last();
        assert forall|a: int, b: int| 0 <= a < b < s2.len() implies #[trigger] s2[a].0@ != #[trigger] s2[b].0@ by {
            assert(s2[a] == sel[a] && s2[b] == sel[b]);
        }
        lemma_with_selections(t, s2, k);
        if exists|i: int| 0 <= i < sel.len() && #[trigger] sel[i].0@ == k {
            let i = choose|i: int| 0 <= i < sel.len() && #[trigger] sel[i].0@ == k;
            if i < sel.len() - 1 {
                assert(s2[i].0@ == k);
                let i2 = choose|i: int| 0 <= i < s2.len() && #[trigger] s2[i].0@ == k;
                if i2 != i {
                    assert(sel[i2].0@ == k);
                }
                assert(sel.last().0@ != k);
            }
        } else {
            assert forall|i: int| 0 <= i < s2.len() implies #[trigger] s2[i].0@ != k by {
                assert(s2[i] == sel[i]);
            }
            assert(sel[sel.len() - 1].0@ != k);
        }
    }
}

/// Merging keeps every key that kaizen does not own (username, hostname,
/// models, ...) exactly as it was.
pub proof fn merge_keeps_other_keys_law(doc: Map<Seq<char>, ValueView>, plan: ConfigPlan, k: Seq<char>)
    requires
        k != "layout"@,
        k != "features"@,
        k != "extra"@,
        k != "variants"@,
    ensures
        merged(doc, plan).contains_key(k) == doc.contains_key(k),
        doc.contains_key(k) ==> merged(doc, plan)[k] == doc[k],
{
}

/// Merging sets the layout, and the feature table holds the plan's flags
/// over the existing ones: a feature of the plan has the plan's value, any
/// other feature keeps its existing entry.
pub proof fn merge_features_law(doc: Map<Seq<char>, ValueView>, plan: ConfigPlan, k: Seq<char>)
    requires
        crate::plan::distinct_keys(flag_entries(plan.features_data)),
    ensures
        merged(doc, plan)["layout"@] == ValueView::Leaf(LeafView::Text(layout_of(plan))),
        merged(doc, plan).contains_key("features"@),
        ({
            let flags = flag_entries(plan.features_data);
            let old_features = sub_table(doc, "features"@);
            match merged(doc, plan)["features"@] {
                ValueView::Table(f) => {
                    &&& (exists|i: int| 0 <= i < flags.len() && #[trigger] flags[i].0 == k) ==> {
                        let i = choose|i: int| 0 <= i < flags.len() && #[trigger] flags[i].0 == k;
                        f.contains_key(k) && f[k] == LeafView::Flag(flags[i].1)
                    }
                    &&& !(exists|i: int| 0 <= i < flags.len() && #[trigger] flags[i].0 == k) ==> (f.contains_key(k)
                        == old_features.contains_key(k) && (old_features.contains_key(k) ==> f[k] == old_features[k]))
                },
                ValueView::Leaf(_) => false,
            }
        }),
{
    lemma_owned_keys_distinct();
    let t1 = doc.insert("layout"@, ValueView::Leaf(LeafView::Text(layout_of(plan))));
    assert(sub_table(t1, "features"@) == sub_table(doc, "features"@));
    lemma_with_flags(sub_table(t1, "features"@), flag_entries(plan.features_data), k);
}

/// `doc[table]` is a table that maps `k` to `val`.
pub open spec fn table_has(doc: Map<Seq<char>, ValueView>, table: Seq<char>, k: Seq<char>, val: LeafView) -> bool {
    doc.contains_key(table) && match doc[table] {
        ValueView::Table(v) => v.contains_key(k) && v[k] == val,
        ValueView::Leaf(_) => false,
    }
}

/// Merging sets the plan's variant selections over the existing ones; the
/// `[variants]` table stays only when it is not empty.
pub proof fn merge_variants_law(doc: Map<Seq<char>, ValueView>, plan: ConfigPlan, k: Seq<char>)
    requires
        forall|a: int, b: int|
            0 <= a < b < plan.variants.pairs().len() ==> #[trigger] plan.variants.pairs()[a].0@
                != #[trigger] plan.variants.pairs()[b].0@,
    ensures
        ({
            let sel = plan.variants.pairs();
            let old_v = sub_table(doc, "variants"@);
            let m = merged(doc, plan);
            &&& (exists|i: int| 0 <= i < sel.len() && #[trigger] sel[i].0@ == k) ==> {
                let i = choose|i: int| 0 <= i < sel.len() && #[trigger] sel[i].0@ == k;
                table_has(m, "variants"@, k, LeafView::Text(sel[i].1@))
            }
            &&& !(exists|i: int| 0 <= i < sel.len() && #[trigger] sel[i].0@ == k) && old_v.contains_key(k) ==> {
                table_has(m, "variants"@, k, old_v[k])
            }
        }),
{
    lemma_owned_keys_distinct();
    let t1 = doc.insert("layout"@, ValueView::Leaf(LeafView::Text(layout_of(plan))));
    let t2 = t1.insert("features"@, ValueView::Table(with_flags(sub_table(t1, "features"@), flag_entries(plan.features_data))));
    let t3 = if plan.extra.empty() {
        t2.remove("extra"@)
    } else {
        t2.insert("extra"@, ValueView::Table(extra_table_of(plan.extra)))
    };
    assert(sub_table(t3, "variants"@) == sub_table(doc, "variants"@));
    let v = with_selections(sub_table(t3, "variants"@), plan.variants.pairs());
    lemma_with_selections(sub_table(t3, "variants"@), plan.variants.pairs(), k);
    if v.contains_key(k) {
        assert(!v.dom().is_empty()) by {
            assert(v.dom().contains(k));
            assert(!Set::<Seq<char>>::empty().contains(k));
        }
    }
}

/// `t` is the `[extra]` table of `e`: exactly the keys `nix_packages`,
/// `brew_casks`, `brew_formulas` and `brew_taps`, each holding the list of
/// `e` of the same name.
pub open spec fn holds_extra(t: Map<Seq<char>, LeafView>, e: ExtraConfig) -> bool {
    &&& t.dom() == set!["nix_packages"@, "brew_casks"@, "brew_formulas"@, "brew_taps"@]
    &&& t["nix_packages"@] == LeafView::Texts(string_views(e.nix_packages@))
    &&& t["brew_casks"@] == LeafView::Texts(string_views(e.brew_casks@))
    &&& t["brew_formulas"@] == LeafView::Texts(string_views(e.brew_formulas@))
    &&& t["brew_taps"@] == LeafView::Texts(string_views(e.brew_taps@))
}

proof fn lemma_extra_table(e: ExtraConfig)
    ensures
        holds_extra(extra_table_of(e), e),
{
    reveal_strlit("nix_packages");
    reveal_strlit("brew_casks");
    reveal_strlit("brew_formulas");
    reveal_strlit("brew_taps");
    assert("nix_packages"@.len() == 12 && "brew_casks"@.len() == 10 && "brew_formulas"@.len() == 13
        && "brew_taps"@.len() == 9);
    assert(extra_table_of(e).dom() =~= set!["nix_packages"@, "brew_casks"@, "brew_formulas"@, "brew_taps"@]);
}

/// With something extra in the plan, merging into any document, and
/// generating, write an `[extra]` table holding each of the plan's lists
/// under its own name (`holds_extra`); with nothing extra, there is no
/// `[extra]` table.
pub proof fn extra_table_law(doc: Map<Seq<char>, ValueView>, plan: ConfigPlan)
    ensures
        !plan.extra.empty() ==> merged(doc, plan).contains_key("extra"@) && merged(doc, plan)["extra"@] is Table
            && holds_extra(merged(doc, plan)["extra"@]->Table_0, plan.extra),
        !plan.extra.empty() ==> generated(plan).contains_key("extra"@) && generated(plan)["extra"@] is Table
            && holds_extra(generated(plan)["extra"@]->Table_0, plan.extra),
        plan.extra.empty() ==> !merged(doc, plan).contains_key("extra"@) && !generated(plan).contains_key("extra"@),
{
    lemma_owned_keys_distinct();
    lemma_extra_table(plan.extra);
}

/// With no `data.toml` yet, merging gives what generating does.
pub proof fn merge_on_missing_file_law(plan: ConfigPlan)
    ensures
        merged(Map::empty(), plan) == generated(plan),
{
    lemma_owned_keys_distinct();
    let t1 = Map::<Seq<char>, ValueView>::empty().insert("layout"@, ValueView::Leaf(LeafView::Text(layout_of(plan))));
    assert(sub_table(t1, "features"@) == Map::<Seq<char>, LeafView>::empty());
    let t2 = t1.insert("features"@, ValueView::Table(with_flags(Map::empty(), flag_entries(plan.features_data))));
    let t3 = if plan.extra.empty() {
        t2.remove("extra"@)
    } else {
        t2.insert("extra"@, ValueView::Table(extra_table_of(plan.extra)))
    };
    assert(sub_table(t3, "variants"@) == Map::<Seq<char>, LeafView>::empty());
    assert(!t3.contains_key("variants"@));
    assert(t3.remove("variants"@) =~= t3);
    if plan.extra.empty() {
        assert(t2.remove("extra"@) =~= t2);
    }
}

/// Selections read back from `data.toml` are the ones last written, and
/// writing them keeps every other key.
pub proof fn variant_selections_round_trip_law(doc: Map<Seq<char>, ValueView>, sel: Map<Seq<char>, String>, k: Seq<char>)
    ensures
        selections_in(replaced_variants(doc, sel)) == sel.map_values(|s: String| s@),
        k != "variants"@ ==> replaced_variants(doc, sel).contains_key(k) == doc.contains_key(k),
        k != "variants"@ && doc.contains_key(k) ==> replaced_variants(doc, sel)[k] == doc[k],
{
    let r = replaced_variants(doc, sel);
    if sel.dom().is_empty() {
        assert(!r.contains_key("variants"@));
        assert forall|x: Seq<char>| !sel.contains_key(x) by {
            assert(!sel.dom().contains(x));
        }
        assert(selections_in(r) =~= sel.map_values(|s: String| s@));
    } else {
        assert(selections_in(r) =~= sel.map_values(|s: String| s@));
    }
}


// ── Reading a document from TOML text ──────────────────────────────────────

/// Every item of an array is a string.
pub open spec fn all_texts(items: Seq<toml::Value>) -> bool {
    forall|i: int| 0 <= i < items.len() ==> toml_shape(#[trigger] items[i]) is Text
}

/// The strings of an array of strings.
pub open spec fn texts_of(items: Seq<toml::Value>) -> Seq<Seq<char>> {
    items.map_values(|x: toml::Value| toml_shape(x)->Text_0@)
}

/// A value inside a table, as read: strings, booleans and arrays of
/// strings are understood, anything else is kept as it is.
pub open spec fn leaf_read(v: toml::Value) -> LeafView {
    match toml_shape(v) {
        TomlShape::Text(s) => LeafView::Text(s@),
        TomlShape::Flag(b) => LeafView::Flag(b),
        TomlShape::List(items) => if all_texts(items@) {
            LeafView::Texts(texts_of(items@))
        } else {
            LeafView::Raw(v)
        },
        _ => LeafView::Raw(v),
    }
}

/// A table's entries, as read.
pub open spec fn table_read(e: Seq<(String, toml::Value)>) -> Map<Seq<char>, LeafView>
    decreases e.len(),
{
    if e.len() == 0 {
        Map::empty()
    } else {
        table_read(e.drop_last()).insert(e.last().0@, leaf_read(e.last().1))
    }
}

/// A top-level value, as read: a table is read entry by entry.
pub open spec fn value_read(v: toml::Value) -> ValueView {
    match toml_shape(v) {
        TomlShape::Table(e) => ValueView::Table(table_read(e@)),
        _ => ValueView::Leaf(leaf_read(v)),
    }
}

/// The top-level entries, as read.
pub open spec fn entries_read(e: Seq<(String, toml::Value)>) -> Map<Seq<char>, ValueView>
    decreases e.len(),
{
    if e.len() == 0 {
        Map::empty()
    } else {
        entries_read(e.drop_last()).insert(e.last().0@, value_read(e.last().1))
    }
}

/// The document of a `data.toml` text: its top-level table; an empty
/// document when the text is not TOML or not a table.
pub open spec fn data_doc_of_text(content: Seq<char>) -> Map<Seq<char>, ValueView> {
    match toml_document(content) {
        Some(v) => match toml_shape(v) {
            TomlShape::Table(e) => entries_read(e@),
            _ => Map::empty(),
        },
        None => Map::empty(),
    }
}

/// `leaf_read`.
fn leaf_from_value(v: toml::Value) -> (r: DataLeaf)
    ensures
        leaf_view(r) == leaf_read(v),
{
    match shape_of(&v) {
        TomlShape::Text(s) => DataLeaf::Text(s),
        TomlShape::Flag(b) => DataLeaf::Flag(b),
        TomlShape::List(items) => {
            let mut texts: Vec<String> = Vec::new();
            let mut i: usize = 0;
            while i < items.len()
                invariant
                    0 <= i <= items@.len(),
                    toml_shape(v) == TomlShape::List(items),
                    texts@.len() == i,
                    forall|j: int| 0 <= j < i ==> toml_shape(#[trigger] items@[j]) is Text,
                    forall|j: int| 0 <= j < i ==> #[trigger] texts@[j]@ == toml_shape(items@[j])->Text_0@,
                decreases items@.len() - i,
            {
                match shape_of(&items[i]) {
                    TomlShape::Text(t) => texts.push(t),
                    _ => {
                        assert(!all_texts(items@)) by {
                            assert(!(toml_shape(items@[i as int]) is Text));
                        }
                        return DataLeaf::Raw(v);
                    },
                }
                i = i + 1;
            }
            assert(string_views(texts@) =~= texts_of(items@));
            DataLeaf::Texts(texts)
        },
        _ => DataLeaf::Raw(v),
    }
}

/// `table_read`.
fn table_from_entries(e: Vec<(String, toml::Value)>) -> (r: StrMap<DataLeaf>)
    ensures
        table_view(r@) == table_read(e@),
{
    let ghost orig = e@;
    let n: usize = e.len();
    let mut rest = e;
    let mut t: StrMap<DataLeaf> = StrMap::new();
    let mut i: usize = 0;
    assert(table_view(t@) =~= table_read(orig.take(0)));
    while rest.len() > 0
        invariant
            0 <= i <= orig.len(),
            orig.len() == n,
            rest@ == orig.skip(i as int),
            table_view(t@) == table_read(orig.take(i as int)),
        decreases rest@.len(),
    {
        let (k, x) = rest.remove(0);
        proof {
            assert(orig.take(i + 1).drop_last() =~= orig.take(i as int));
            assert(orig.take(i + 1).last() == orig[i as int]);
        }
        let ghost before = t@;
        t.insert(k, leaf_from_value(x));
        assert(table_view(t@) =~= table_view(before).insert(orig[i as int].0@, leaf_read(orig[i as int].1)));
        i = i + 1;
        assert(rest@ =~= orig.skip(i as int));
    }
    assert(orig.take(i as int) =~= orig);
    t
}

/// The document of a `data.toml` text (`data_doc_of_text`).
pub fn parse_data_doc(content: &str) -> (r: DataDoc)
    ensures
        doc_view(r.entries@) == data_doc_of_text(content@),
{
    let mut entries: StrMap<DataValue> = StrMap::new();
    assert(doc_view(entries@) =~= Map::<Seq<char>, ValueView>::empty());
    let value = match parse_toml(content) {
        Some(v) => v,
        None => {
            return DataDoc { entries };
        },
    };
    let e = match shape_of(&value) {
        TomlShape::Table(e) => e,
        _ => {
            return DataDoc { entries };
        },
    };
    let ghost orig = e@;
    let n: usize = e.len();
    let mut rest = e;
    let mut i: usize = 0;
    assert(doc_view(entries@) =~= entries_read(orig.take(0)));
    while rest.len() > 0
        invariant
            0 <= i <= orig.len(),
            orig.len() == n,
            rest@ == orig.skip(i as int),
            doc_view(entries@) == entries_read(orig.take(i as int)),
        decreases rest@.len(),
    {
        let (k, x) = rest.remove(0);
        proof {
            assert(orig.take(i + 1).drop_last() =~= orig.take(i as int));
            assert(orig.take(i + 1).last() == orig[i as int]);
        }
        let value = match shape_of(&x) {
            TomlShape::Table(inner) => DataValue::Table(table_from_entries(inner)),
            _ => DataValue::Leaf(leaf_from_value(x)),
        };
        let ghost before = entries@;
        entries.insert(k, value);
        assert(doc_view(entries@) =~= doc_view(before).insert(orig[i as int].0@, value_read(orig[i as int].1)));
        i = i + 1;
        assert(rest@ =~= orig.skip(i as int));
    }
    assert(orig.take(i as int) =~= orig);
    DataDoc { entries }
}


// ── Writing a document as TOML text ─────────────────────────────────────────

/// The TOML value written for a leaf.
pub open spec fn leaf_value_of(l: LeafView) -> toml::Value {
    match l {
        LeafView::Text(s) => toml_string_of(s),
        LeafView::Flag(b) => toml_bool_of(b),
        LeafView::Texts(ts) => toml_array_of(ts.map_values(|t: Seq<char>| toml_string_of(t))),
        LeafView::Raw(v) => v,
    }
}

/// The TOML table written for a table of leaves.
pub open spec fn table_value_of(t: Map<Seq<char>, LeafView>) -> toml::Value {
    toml_table_of(t.map_values(|l: LeafView| leaf_value_of(l)))
}

/// The TOML value written for a top-level value.
pub open spec fn value_of(v: ValueView) -> toml::Value {
    match v {
        ValueView::Leaf(l) => leaf_value_of(l),
        ValueView::Table(t) => table_value_of(t),
    }
}

/// The TOML table written for a document.
pub open spec fn doc_value(doc: Map<Seq<char>, ValueView>) -> toml::Value {
    toml_table_of(doc.map_values(|v: ValueView| value_of(v)))
}

/// `leaf_value_of`.
fn leaf_value(l: DataLeaf) -> (r: toml::Value)
    ensures
        r == leaf_value_of(leaf_view(l)),
{
    match l {
        DataLeaf::Text(s) => text_value(s),
        DataLeaf::Flag(b) => flag_value(b),
        DataLeaf::Texts(ts) => {
            let mut items: Vec<toml::Value> = Vec::new();
            let mut i: usize = 0;
            while i < ts.len()
                invariant
                    0 <= i <= ts@.len(),
                    items@.len() == i,
                    forall|j: int| 0 <= j < i ==> #[trigger] items@[j] == toml_string_of(ts@[j]@),
                decreases ts@.len() - i,
            {
                items.push(text_value(ts[i].clone()));
                i = i + 1;
            }
            assert(items@ =~= string_views(ts@).map_values(|t: Seq<char>| toml_string_of(t)));
            list_value(items)
        },
        DataLeaf::Raw(y) => y,
    }
}

/// The entries of `out` are those of `orig`, each value mapped by `f`: the
/// map of `out` is the map of `orig` with `f` applied.
proof fn lemma_mapped_entries<V>(
    orig: Seq<(String, V)>,
    out: Seq<(String, toml::Value)>,
    m: Map<Seq<char>, V>,
    f: spec_fn(V) -> toml::Value,
)
    requires
        strictly_sorted(keys_of(orig)),
        out.len() == orig.len(),
        forall|j: int| 0 <= j < out.len() ==> (#[trigger] out[j]).0 == orig[j].0 && out[j].1 == f(orig[j].1),
        forall|k: Seq<char>| #[trigger] m.contains_key(k) <==> exists|i: int| 0 <= i < orig.len() && orig[i].0@ == k,
        forall|i: int| 0 <= i < orig.len() ==> #[trigger] m[orig[i].0@] == orig[i].1,
    ensures
        entry_keys(out).no_duplicates(),
        entries_map(out) == m.map_values(f),
{
    assert(keys_of(out) =~= keys_of(orig)) by {
        assert forall|j: int| 0 <= j < out.len() implies keys_of(out)[j] == keys_of(orig)[j] by {
            assert(out[j].0 == orig[j].0);
        }
    }
    assert(entry_keys(out) =~= keys_of(orig));
    assert forall|i: int, j: int| 0 <= i < out.len() && 0 <= j < out.len() && i != j implies entry_keys(out)[i]
        != entry_keys(out)[j] by {
        lemma_sorted_distinct(keys_of(orig), i, j);
    }
    crate::strmap::lemma_entries_map(out);
    assert forall|k: Seq<char>| #[trigger] entries_map(out).contains_key(k) <==> m.map_values(f).contains_key(k) by {
        if m.contains_key(k) {
            let i = choose|i: int| 0 <= i < orig.len() && orig[i].0@ == k;
            assert(out[i].0@ == k);
        }
        if entries_map(out).contains_key(k) {
            let i = choose|i: int| 0 <= i < out.len() && out[i].0@ == k;
            assert(orig[i].0@ == k);
        }
    }
    assert forall|k: Seq<char>| #[trigger] entries_map(out).contains_key(k) implies entries_map(out)[k] == m.map_values(
        f,
    )[k] by {
        let i = choose|i: int| 0 <= i < out.len() && out[i].0@ == k;
        assert(orig[i].0@ == k);
    }
    assert(entries_map(out) =~= m.map_values(f));
}

/// `table_value_of`.
fn table_to_value(t: StrMap<DataLeaf>) -> (r: toml::Value)
    ensures
        r == table_value_of(table_view(t@)),
{
    let ghost tm = t@;
    let pairs = t.into_pairs();
    let ghost orig = pairs@;
    let n: usize = pairs.len();
    let mut rest = pairs;
    let mut out: Vec<(String, toml::Value)> = Vec::new();
    let mut i: usize = 0;
    while rest.len() > 0
        invariant
            0 <= i <= orig.len(),
            orig.len() == n,
            rest@ == orig.skip(i as int),
            out@.len() == i,
            forall|j: int| 0 <= j < i ==> (#[trigger] out@[j]).0 == orig[j].0 && out@[j].1 == leaf_value_of(
                leaf_view(orig[j].1),
            ),
        decreases rest@.len(),
    {
        let (k, l) = rest.remove(0);
        out.push((k, leaf_value(l)));
        i = i + 1;
        assert(rest@ =~= orig.skip(i as int));
    }
    proof {
        let f = |l: DataLeaf| leaf_value_of(leaf_view(l));
        lemma_mapped_entries(orig, out@, tm, f);
        assert(tm.map_values(f) =~= table_view(tm).map_values(|l: LeafView| leaf_value_of(l)));
    }
    table_value(out)
}

/// `doc_value`.
fn doc_to_value(doc: DataDoc) -> (r: toml::Value)
    ensures
        r == doc_value(doc_view(doc.entries@)),
{
    let ghost tm = doc.entries@;
    let pairs = doc.entries.into_pairs();
    let ghost orig = pairs@;
    let n: usize = pairs.len();
    let mut rest = pairs;
    let mut out: Vec<(String, toml::Value)> = Vec::new();
    let mut i: usize = 0;
    while rest.len() > 0
        invariant
            0 <= i <= orig.len(),
            orig.len() == n,
            rest@ == orig.skip(i as int),
            out@.len() == i,
            forall|j: int| 0 <= j < i ==> (#[trigger] out@[j]).0 == orig[j].0 && out@[j].1 == value_of(
                value_view(orig[j].1),
            ),
        decreases rest@.len(),
    {
        let (k, v) = rest.remove(0);
        let x = match v {
            DataValue::Leaf(l) => leaf_value(l),
            DataValue::Table(t) => table_to_value(t),
        };
        out.push((k, x));
        i = i + 1;
        assert(rest@ =~= orig.skip(i as int));
    }
    proof {
        let f = |v: DataValue| value_of(value_view(v));
        lemma_mapped_entries(orig, out@, tm, f);
        assert(tm.map_values(f) =~= doc_view(tm).map_values(|v: ValueView| value_of(v)));
    }
    table_value(out)
}

/// The TOML text of a document: what `toml` writes for the document's
/// table (`doc_value`), when it can write it.
pub fn render_data_doc(doc: DataDoc) -> (r: Result<String, KaizenError>)
    ensures
        r is Ok <==> toml_renders(doc_value(doc_view(doc.entries@))),
        r matches Ok(s) ==> s@ == toml_text(doc_value(doc_view(doc.entries@))),
        r is Err ==> r matches Err(KaizenError::TomlSerialize(_)),
{
    let x = doc_to_value(doc);
    render_toml(&x)
}

/// The document found in an existing `data.toml` text; empty without one.
pub open spec fn existing_data(existing: Option<Seq<char>>) -> Map<Seq<char>, ValueView> {
    match existing {
        Some(c) => data_doc_of_text(c),
        None => Map::empty(),
    }
}

pub open spec fn opt_str_view(o: Option<&str>) -> Option<Seq<char>> {
    match o {
        Some(c) => Some(c@),
        None => None,
    }
}

/// The text of `existing` with the kaizen-managed keys of `plan` merged
/// in (`merged`); with no existing text, the merge starts from an empty
/// document, and a text that is not a TOML table counts as empty.
pub fn merge_kaizen_data_text(existing: Option<&str>, plan: &ConfigPlan) -> (r: Result<String, KaizenError>)
    ensures
        r is Ok <==> toml_renders(doc_value(merged(existing_data(opt_str_view(existing)), *plan))),
        r matches Ok(s) ==> s@ == toml_text(doc_value(merged(existing_data(opt_str_view(existing)), *plan))),
        r is Err ==> r matches Err(KaizenError::TomlSerialize(_)),
{
    let doc = match existing {
        Some(c) => Some(parse_data_doc(c)),
        None => None,
    };
    render_data_doc(merge_kaizen_data(doc, plan))
}

/// The text of a `data.toml` generated from scratch (`generated`).
pub fn generate_kaizen_data_text(plan: &ConfigPlan) -> (r: Result<String, KaizenError>)
    ensures
        r is Ok <==> toml_renders(doc_value(generated(*plan))),
        r matches Ok(s) ==> s@ == toml_text(doc_value(generated(*plan))),
        r is Err ==> r matches Err(KaizenError::TomlSerialize(_)),
{
    render_data_doc(generate_kaizen_data_doc(plan))
}

/// The text of `existing` with its `[variants]` block replaced by
/// `selections` (`replaced_variants`), every other key kept.
pub fn variant_selections_text(existing: Option<&str>, selections: &StrMap<String>) -> (r: Result<String, KaizenError>)
    ensures
        r is Ok <==> toml_renders(doc_value(replaced_variants(existing_data(opt_str_view(existing)), selections@))),
        r matches Ok(s) ==> s@ == toml_text(doc_value(replaced_variants(existing_data(opt_str_view(existing)), selections@))),
        r is Err ==> r matches Err(KaizenError::TomlSerialize(_)),
{
    let doc = match existing {
        Some(c) => Some(parse_data_doc(c)),
        None => None,
    };
    render_data_doc(write_variant_selections_doc(doc, selections))
}

/// With no `data.toml` yet, merging writes the same text as generating,
/// and succeeds exactly when generating does.
pub proof fn merge_text_on_missing_file_law(plan: ConfigPlan)
    ensures
        toml_renders(doc_value(merged(existing_data(None), plan))) == toml_renders(doc_value(generated(plan))),
        toml_text(doc_value(merged(existing_data(None), plan))) == toml_text(doc_value(generated(plan))),
{
    merge_on_missing_file_law(plan);
}

} // verus!
