//! The keyboard shortcut catalog (`keybindings.toml`): base shortcuts, and
//! per-layout overlays that replace their keys.
use vstd::prelude::*;

use crate::strmap::StrMap;
use crate::text::{starts_with, chars_of, has_prefix, string_views};
use crate::toml_doc::{entry_named, find_entry, get_entry, get_value, parse_toml, shape_of, toml_document, toml_shape, TomlShape};

verus! {

/// A shortcut of the catalog.
#[derive(Debug, Clone)]
pub struct ShortcutDefinition {
    pub id: String,
    pub keys: Vec<String>,
    pub group: Option<String>,
    pub description: Option<String>,
}

/// The catalog, in the order of the file's `[shortcuts]` table.
pub struct ShortcutCatalog {
    pub shortcuts: Vec<ShortcutDefinition>,
}

/// A value of a shortcuts table, as far as the catalog reads it.
#[derive(Debug, Clone)]
pub enum ShortcutValue {
    /// An array: its items, `None` for an item that is not a string.
    Keys(Vec<Option<String>>),
    /// A table: its `keys` array when `keys` is an array, and its `group`
    /// and `description` when they are strings.
    Entry { keys: Option<Vec<Option<String>>>, group: Option<String>, description: Option<String> },
    /// Any other value.
    Other,
}

/// What the catalog reads of a `keybindings.toml` document: the entries of
/// `[shortcuts]`, and for each table under `[layout]`, the entries of its
/// `shortcuts` table (none when it has no such table).
#[derive(Debug, Clone)]
pub struct KeymapDoc {
    pub shortcuts: Vec<(String, ShortcutValue)>,
    pub layouts: Vec<(String, Vec<(String, ShortcutValue)>)>,
}

// ── Model ───────────────────────────────────────────────────────────────────

/// The string items of an array, in order.
pub open spec fn string_items(items: Seq<Option<String>>) -> Seq<Seq<char>>
    decreases items.len(),
{
    if items.len() == 0 {
        Seq::empty()
    } else {
        let prev = string_items(items.drop_last());
        match items.last() {
            Some(s) => prev.push(s@),
            None => prev,
        }
    }
}

/// The keys of a value: the strings of an array, or of the `keys` array of
/// a table; none for anything else.
pub open spec fn value_keys(v: ShortcutValue) -> Option<Seq<Seq<char>>> {
    match v {
        ShortcutValue::Keys(items) => Some(string_items(items@)),
        ShortcutValue::Entry { keys, .. } => match keys {
            Some(items) => Some(string_items(items@)),
            None => None,
        },
        ShortcutValue::Other => None,
    }
}

/// Overlay keys by id: the arrays of a layout's shortcuts table.
pub open spec fn overlay_of(entries: Seq<(String, ShortcutValue)>) -> Map<Seq<char>, Seq<Seq<char>>>
    decreases entries.len(),
{
    if entries.len() == 0 {
        Map::empty()
    } else {
        let prev = overlay_of(entries.drop_last());
        match entries.last().1 {
            ShortcutValue::Keys(items) => prev.insert(entries.last().0@, string_items(items@)),
            _ => prev,
        }
    }
}

/// The shortcuts table of the first layout named `layout`.
pub open spec fn layout_table(layouts: Seq<(String, Vec<(String, ShortcutValue)>)>, layout: Seq<char>) -> Seq<
    (String, ShortcutValue),
>
    decreases layouts.len(),
{
    if layouts.len() == 0 {
        Seq::empty()
    } else if layouts[0].0@ == layout {
        layouts[0].1@
    } else {
        layout_table(layouts.drop_first(), layout)
    }
}

/// Plain view of a definition: id, keys, group, description.
pub type DefView = (Seq<char>, Seq<Seq<char>>, Option<Seq<char>>, Option<Seq<char>>);

pub open spec fn opt_text(o: Option<String>) -> Option<Seq<char>> {
    match o {
        Some(s) => Some(s@),
        None => None,
    }
}

pub open spec fn def_view(d: ShortcutDefinition) -> DefView {
    (d.id@, string_views(d.keys@), opt_text(d.group), opt_text(d.description))
}

pub open spec fn def_views(s: Seq<ShortcutDefinition>) -> Seq<DefView> {
    s.map_values(|d: ShortcutDefinition| def_view(d))
}

/// The definition of a base entry, with the overlay's keys when the overlay
/// has the id; none for an entry without keys.
pub open spec fn definition_of(id: Seq<char>, v: ShortcutValue, overlay: Map<Seq<char>, Seq<Seq<char>>>) -> Option<DefView> {
    let (base_keys, group, description) = match v {
        ShortcutValue::Keys(items) => (Some(string_items(items@)), None, None),
        ShortcutValue::Entry { keys, group, description } => (
            match keys {
                Some(items) => Some(string_items(items@)),
                None => None,
            },
            opt_text(group),
            opt_text(description),
        ),
        ShortcutValue::Other => (None, None, None),
    };
    match base_keys {
        None => None,
        Some(k) => Some(
            (
                id,
                if overlay.contains_key(id) {
                    overlay[id]
                } else {
                    k
                },
                group,
                description,
            ),
        ),
    }
}

/// The catalog of a base table under an overlay.
pub open spec fn catalog_of(base: Seq<(String, ShortcutValue)>, overlay: Map<Seq<char>, Seq<Seq<char>>>) -> Seq<DefView>
    decreases base.len(),
{
    if base.len() == 0 {
        Seq::empty()
    } else {
        let prev = catalog_of(base.drop_last(), overlay);
        match definition_of(base.last().0@, base.last().1, overlay) {
            Some(d) => prev.push(d),
            None => prev,
        }
    }
}

/// The overlay of the layout `layout` (none without a layout).
pub open spec fn overlay_for(doc: KeymapDoc, layout: Option<Seq<char>>) -> Map<Seq<char>, Seq<Seq<char>>> {
    match layout {
        Some(l) => overlay_of(layout_table(doc.layouts@, l)),
        None => Map::empty(),
    }
}

/// A layout overlay decides the keys of the shortcuts it names, whatever
/// the form (array or table) of their base entries: each shortcut of the
/// catalog whose id the overlay holds has the overlay's keys; the catalog
/// under an overlay lists the same shortcuts, in the same order, with the
/// same group and description as without one, and a shortcut the overlay
/// does not name is as it is without an overlay.
pub proof fn overlay_law(base: Seq<(String, ShortcutValue)>, overlay: Map<Seq<char>, Seq<Seq<char>>>)
    ensures
        catalog_of(base, overlay).len() == catalog_of(base, Map::empty()).len(),
        forall|i: int|
            0 <= i < catalog_of(base, overlay).len() ==> {
                let d = #[trigger] catalog_of(base, overlay)[i];
                let plain = catalog_of(base, Map::empty())[i];
                &&& d.0 == plain.0 && d.2 == plain.2 && d.3 == plain.3
                &&& overlay.contains_key(d.0) ==> d.1 == overlay[d.0]
                &&& !overlay.contains_key(d.0) ==> d == plain
            },
    decreases base.len(),
{
    if base.len() > 0 {
        overlay_law(base.drop_last(), overlay);
        let prev = catalog_of(base.drop_last(), overlay);
        let pprev = catalog_of(base.drop_last(), Map::empty());
        let id = base.last().0@;
        let v = base.last().1;
        let d = definition_of(id, v, overlay);
        let pd = definition_of(id, v, Map::empty());
        assert(d is Some <==> pd is Some);
        if d is Some {
            assert(catalog_of(base, overlay) == prev.push(d->0));
            assert(catalog_of(base, Map::empty()) == pprev.push(pd->0));
            assert forall|i: int| 0 <= i < catalog_of(base, overlay).len() implies {
                let d = #[trigger] catalog_of(base, overlay)[i];
                let plain = catalog_of(base, Map::empty())[i];
                &&& d.0 == plain.0 && d.2 == plain.2 && d.3 == plain.3
                &&& overlay.contains_key(d.0) ==> d.1 == overlay[d.0]
                &&& !overlay.contains_key(d.0) ==> d == plain
            } by {
                if i < prev.len() {
                    assert(catalog_of(base, overlay)[i] == prev[i]);
                    assert(catalog_of(base, Map::empty())[i] == pprev[i]);
                }
            }
        }
    }
}

// ── Executable ──────────────────────────────────────────────────────────────

/// The string items of an array (`string_items`).
pub fn keys_of_items(items: &Vec<Option<String>>) -> (r: Vec<String>)
    ensures
        string_views(r@) == string_items(items@),
{
    let mut r: Vec<String> = Vec::new();
    let mut i: usize = 0;
    assert(items@.take(0) =~= Seq::<Option<String>>::empty());
    while i < items.len()
        invariant
            0 <= i <= items@.len(),
            string_views(r@) == string_items(items@.take(i as int)),
        decreases items@.len() - i,
    {
        proof {
            assert(items@.take(i + 1).drop_last() =~= items@.take(i as int));
            assert(items@.take(i + 1).last() == items@[i as int]);
        }
        match &items[i] {
            Some(s) => {
                let ghost before = string_views(r@);
                r.push(s.clone());
                assert(string_views(r@) =~= before.push(s@));
            },
            None => {},
        }
        i = i + 1;
    }
    assert(items@.take(items@.len() as int) =~= items@);
    r
}

/// The keys of a value (`value_keys`).
pub fn extract_keys_from_value(val: &ShortcutValue) -> (r: Option<Vec<String>>)
    ensures
        match r {
            Some(k) => value_keys(*val) == Some(string_views(k@)),
            None => value_keys(*val) is None,
        },
{
    match val {
        ShortcutValue::Keys(items) => Some(keys_of_items(items)),
        ShortcutValue::Entry { keys, .. } => match keys {
            Some(items) => Some(keys_of_items(items)),
            None => None,
        },
        ShortcutValue::Other => None,
    }
}

pub open spec fn keys_map_view(m: Map<Seq<char>, Vec<String>>) -> Map<Seq<char>, Seq<Seq<char>>> {
    m.map_values(|v: Vec<String>| string_views(v@))
}

/// The overlay of a layout's shortcuts table (`overlay_of`).
fn overlay_from(entries: &Vec<(String, ShortcutValue)>) -> (r: StrMap<Vec<String>>)
    ensures
        keys_map_view(r@) == overlay_of(entries@),
{
    let mut m: StrMap<Vec<String>> = StrMap::new();
    let mut i: usize = 0;
    assert(entries@.take(0) =~= Seq::<(String, ShortcutValue)>::empty());
    assert(keys_map_view(m@) =~= Map::<Seq<char>, Seq<Seq<char>>>::empty());
    while i < entries.len()
        invariant
            0 <= i <= entries@.len(),
            keys_map_view(m@) == overlay_of(entries@.take(i as int)),
        decreases entries@.len() - i,
    {
        proof {
            assert(entries@.take(i + 1).drop_last() =~= entries@.take(i as int));
            assert(entries@.take(i + 1).last() == entries@[i as int]);
        }
        match &entries[i].1 {
            ShortcutValue::Keys(items) => {
                let keys = keys_of_items(items);
                let ghost before = m@;
                let ghost kv = string_views(keys@);
                m.insert(entries[i].0.clone(), keys);
                assert(keys_map_view(m@) =~= keys_map_view(before).insert(entries@[i as int].0@, kv));
            },
            _ => {},
        }
        i = i + 1;
    }
    assert(entries@.take(entries@.len() as int) =~= entries@);
    m
}

/// The shortcuts table of the first layout named `layout` (`layout_table`).
fn find_layout<'a>(doc: &'a KeymapDoc, layout: &str) -> (r: Option<&'a Vec<(String, ShortcutValue)>>)
    ensures
        match r {
            Some(t) => layout_table(doc.layouts@, layout@) == t@,
            None => layout_table(doc.layouts@, layout@) == Seq::<(String, ShortcutValue)>::empty(),
        },
{
    let ghost ls = doc.layouts@;
    let mut i: usize = 0;
    assert(ls.skip(0) =~= ls);
    while i < doc.layouts.len()
        invariant
            0 <= i <= ls.len(),
            ls == doc.layouts@,
            layout_table(ls, layout@) == layout_table(ls.skip(i as int), layout@),
        decreases ls.len() - i,
    {
        proof {
            assert(ls.skip(i as int).drop_first() =~= ls.skip(i + 1));
            assert(ls.skip(i as int)[0] == ls[i as int]);
        }
        if crate::text::str_eq(doc.layouts[i].0.as_str(), layout) {
            return Some(&doc.layouts[i].1);
        }
        i = i + 1;
    }
    assert(ls.skip(i as int) =~= Seq::<(String, Vec<(String, ShortcutValue)>)>::empty());
    None
}

impl ShortcutCatalog {
    /// The catalog of a document, with the overlay of `layout` applied
    /// when it is given: an overlay's keys replace the base keys of the same
    /// id, group and description stay those of the base entry.
    pub fn from_doc(doc: &KeymapDoc, layout: Option<&str>) -> (r: Self)
        ensures
            def_views(r.shortcuts@) == catalog_of(
                doc.shortcuts@,
                overlay_for(
                    *doc,
                    match layout {
                        Some(l) => Some(l@),
                        None => None,
                    },
                ),
            ),
    {
        let overlay = match layout {
            Some(l) => match find_layout(doc, l) {
                Some(t) => overlay_from(t),
                None => {
                    let m: StrMap<Vec<String>> = StrMap::new();
                    assert(keys_map_view(m@) =~= overlay_of(Seq::<(String, ShortcutValue)>::empty()));
                    m
                },
            },
            None => {
                let m: StrMap<Vec<String>> = StrMap::new();
                assert(keys_map_view(m@) =~= Map::<Seq<char>, Seq<Seq<char>>>::empty());
                m
            },
        };
        let ghost ov = keys_map_view(overlay@);
        let ghost base = doc.shortcuts@;
        let mut out: Vec<ShortcutDefinition> = Vec::new();
        let mut i: usize = 0;
        assert(base.take(0) =~= Seq::<(String, ShortcutValue)>::empty());
        while i < doc.shortcuts.len()
            invariant
                0 <= i <= base.len(),
                base == doc.shortcuts@,
                ov == keys_map_view(overlay@),
                def_views(out@) == catalog_of(base.take(i as int), ov),
            decreases base.len() - i,
        {
            let (id, val) = &doc.shortcuts[i];
            proof {
                assert(base.take(i + 1).drop_last() =~= base.take(i as int));
                assert(base.take(i + 1).last() == base[i as int]);
            }
            let parts: Option<(Vec<String>, Option<String>, Option<String>)> = match val {
                ShortcutValue::Keys(items) => Some((keys_of_items(items), None, None)),
                ShortcutValue::Entry { keys, group, description } => match keys {
                    Some(items) => Some((keys_of_items(items), group.clone(), description.clone())),
                    None => None,
                },
                ShortcutValue::Other => None,
            };
            match parts {
                Some((base_keys, group, description)) => {
                    let keys = match overlay.get(id.as_str()) {
                        Some(k) => crate::progress::copy_strings(k),
                        None => base_keys,
                    };
                    let d = ShortcutDefinition { id: id.clone(), keys, group, description };
                    proof {
                        assert(definition_of(id@, *val, ov) == Some(def_view(d)));
                    }
                    let ghost before = def_views(out@);
                    out.push(d);
                    assert(def_views(out@) =~= before.push(def_view(d)));
                },
                None => {},
            }
            i = i + 1;
        }
        assert(base.take(base.len() as int) =~= base);
        ShortcutCatalog { shortcuts: out }
    }

    /// Shortcuts whose id starts with one of `prefixes`; all of them for an
    /// empty list.
    pub fn by_prefix<'a>(&'a self, prefixes: &'a [String]) -> (r: Vec<&'a ShortcutDefinition>)
        ensures
            r@.map_values(|d: &ShortcutDefinition| def_view(*d)) == matching_prefix(
                def_views(self.shortcuts@),
                string_views(prefixes@),
            ),
    {
        let ghost dv = def_views(self.shortcuts@);
        let ghost pv = string_views(prefixes@);
        let mut r: Vec<&ShortcutDefinition> = Vec::new();
        let mut i: usize = 0;
        assert(dv.take(0) =~= Seq::<DefView>::empty());
        while i < self.shortcuts.len()
            invariant
                0 <= i <= dv.len(),
                dv == def_views(self.shortcuts@),
                pv == string_views(prefixes@),
                r@.map_values(|d: &ShortcutDefinition| def_view(*d)) == matching_prefix(dv.take(i as int), pv),
            decreases dv.len() - i,
        {
            let s = &self.shortcuts[i];
            proof {
                assert(dv.take(i + 1).drop_last() =~= dv.take(i as int));
                assert(dv.take(i + 1).last() == def_view(*s));
            }
            let mut keep = prefixes.len() == 0;
            let mut j: usize = 0;
            let idc = chars_of(s.id.as_str());
            while j < prefixes.len() && !keep
                invariant
                    0 <= j <= prefixes@.len(),
                    idc@ == s.id@,
                    pv == string_views(prefixes@),
                    keep ==> (pv.len() == 0 || exists|k: int| 0 <= k < pv.len() && has_prefix(s.id@, #[trigger] pv[k])),
                    !keep ==> pv.len() > 0 && forall|k: int| 0 <= k < j ==> !has_prefix(s.id@, #[trigger] pv[k]),
                decreases prefixes@.len() - j,
            {
                let pc = chars_of(prefixes[j].as_str());
                if starts_with(&idc, &pc) {
                    assert(has_prefix(s.id@, pv[j as int]));
                    keep = true;
                }
                j = j + 1;
            }
            if keep {
                let ghost before = r@.map_values(|d: &ShortcutDefinition| def_view(*d));
                r.push(s);
                assert(r@.map_values(|d: &ShortcutDefinition| def_view(*d)) =~= before.push(def_view(*s)));
            }
            i = i + 1;
        }
        assert(dv.take(dv.len() as int) =~= dv);
        r
    }
}

/// The definitions whose id starts with one of `prefixes` (all of them
/// when there is no prefix), in order.
pub open spec fn matching_prefix(defs: Seq<DefView>, prefixes: Seq<Seq<char>>) -> Seq<DefView>
    decreases defs.len(),
{
    if defs.len() == 0 {
        Seq::empty()
    } else {
        let prev = matching_prefix(defs.drop_last(), prefixes);
        if prefixes.len() == 0 || exists|k: int| 0 <= k < prefixes.len() && has_prefix(defs.last().0, #[trigger] prefixes[k]) {
            prev.push(defs.last())
        } else {
            prev
        }
    }
}

// ── All layouts ─────────────────────────────────────────────────────────────

/// Keys by layout and id.
pub type LayoutsView = Map<Seq<char>, Map<Seq<char>, Seq<Seq<char>>>>;

pub open spec fn add_keys(m: LayoutsView, layout: Seq<char>, id: Seq<char>, keys: Seq<Seq<char>>) -> LayoutsView {
    m.insert(
        layout,
        (if m.contains_key(layout) {
            m[layout]
        } else {
            Map::empty()
        }).insert(id, keys),
    )
}

/// `m` with the entries of a shortcuts table that have keys added under
/// `layout`.
pub open spec fn with_table(m: LayoutsView, layout: Seq<char>, entries: Seq<(String, ShortcutValue)>) -> LayoutsView
    decreases entries.len(),
{
    if entries.len() == 0 {
        m
    } else {
        let prev = with_table(m, layout, entries.drop_last());
        match value_keys(entries.last().1) {
            Some(k) => add_keys(prev, layout, entries.last().0@, k),
            None => prev,
        }
    }
}

pub open spec fn with_layouts(m: LayoutsView, layouts: Seq<(String, Vec<(String, ShortcutValue)>)>) -> LayoutsView
    decreases layouts.len(),
{
    if layouts.len() == 0 {
        m
    } else {
        with_table(with_layouts(m, layouts.drop_last()), layouts.last().0@, layouts.last().1@)
    }
}

/// Keys of every shortcut by layout: `base` holds the base keys, each
/// layout its overlay (a layout appears only with at least one entry that
/// has keys).
pub open spec fn all_layouts_of(doc: KeymapDoc) -> LayoutsView {
    with_layouts(with_table(Map::empty(), "base"@, doc.shortcuts@), doc.layouts@)
}

pub open spec fn layouts_view(m: Map<Seq<char>, StrMap<Vec<String>>>) -> LayoutsView {
    m.map_values(|inner: StrMap<Vec<String>>| keys_map_view(inner@))
}

fn add_table(result: &mut StrMap<StrMap<Vec<String>>>, layout: &str, entries: &Vec<(String, ShortcutValue)>)
    ensures
        layouts_view(final(result)@) == with_table(layouts_view(old(result)@), layout@, entries@),
{
    let ghost start = layouts_view(result@);
    let mut i: usize = 0;
    assert(entries@.take(0) =~= Seq::<(String, ShortcutValue)>::empty());
    while i < entries.len()
        invariant
            0 <= i <= entries@.len(),
            start == layouts_view(old(result)@),
            layouts_view(result@) == with_table(start, layout@, entries@.take(i as int)),
        decreases entries@.len() - i,
    {
        proof {
            assert(entries@.take(i + 1).drop_last() =~= entries@.take(i as int));
            assert(entries@.take(i + 1).last() == entries@[i as int]);
        }
        match extract_keys_from_value(&entries[i].1) {
            Some(keys) => {
                let ghost before = layouts_view(result@);
                let ghost kv = string_views(keys@);
                let mut inner = match result.remove(layout) {
                    Some(m) => m,
                    None => StrMap::new(),
                };
                proof {
                    if before.contains_key(layout@) {
                        assert(keys_map_view(inner@) == before[layout@]);
                    } else {
                        assert(keys_map_view(inner@) =~= Map::<Seq<char>, Seq<Seq<char>>>::empty());
                    }
                }
                let ghost inner_before = inner@;
                inner.insert(entries[i].0.clone(), keys);
                assert(keys_map_view(inner@) =~= keys_map_view(inner_before).insert(entries@[i as int].0@, kv));
                let ghost removed = result@;
                result.insert(String::from_str(layout), inner);
                assert(layouts_view(result@) =~= add_keys(before, layout@, entries@[i as int].0@, kv));
            },
            None => {},
        }
        i = i + 1;
    }
    assert(entries@.take(entries@.len() as int) =~= entries@);
}

impl ShortcutCatalog {
    /// Keys of every shortcut by layout (`all_layouts_of`): `base` holds
    /// the values without overlay.
    pub fn all_layouts_from_doc(doc: &KeymapDoc) -> (r: StrMap<StrMap<Vec<String>>>)
        ensures
            layouts_view(r@) == all_layouts_of(*doc),
    {
        let mut result: StrMap<StrMap<Vec<String>>> = StrMap::new();
        assert(layouts_view(result@) =~= Map::<Seq<char>, Map<Seq<char>, Seq<Seq<char>>>>::empty());
        add_table(&mut result, "base", &doc.shortcuts);
        let ghost base = layouts_view(result@);
        let mut i: usize = 0;
        assert(doc.layouts@.take(0) =~= Seq::<(String, Vec<(String, ShortcutValue)>)>::empty());
        while i < doc.layouts.len()
            invariant
                0 <= i <= doc.layouts@.len(),
                base == with_table(Map::empty(), "base"@, doc.shortcuts@),
                layouts_view(result@) == with_layouts(base, doc.layouts@.take(i as int)),
            decreases doc.layouts@.len() - i,
        {
            proof {
                assert(doc.layouts@.take(i + 1).drop_last() =~= doc.layouts@.take(i as int));
                assert(doc.layouts@.take(i + 1).last() == doc.layouts@[i as int]);
            }
            add_table(&mut result, doc.layouts[i].0.as_str(), &doc.layouts[i].1);
            i = i + 1;
        }
        assert(doc.layouts@.take(doc.layouts@.len() as int) =~= doc.layouts@);
        result
    }
}


// ── Reading `keybindings.toml` ──────────────────────────────────────────────

/// The text of a value, when it is a string.
pub open spec fn text_read(x: toml::Value) -> Option<Seq<char>> {
    match toml_shape(x) {
        TomlShape::Text(s) => Some(s@),
        _ => None,
    }
}

/// `os` are the items of the array `xs`, a string item as itself, any
/// other item as none.
pub open spec fn items_read(os: Seq<Option<String>>, xs: Seq<toml::Value>) -> bool {
    &&& os.len() == xs.len()
    &&& forall|i: int| 0 <= i < xs.len() ==> opt_text(#[trigger] os[i]) == text_read(xs[i])
}

/// `o` is the string held by an optional value.
pub open spec fn opt_text_read(o: Option<String>, x: Option<toml::Value>) -> bool {
    opt_text(o) == match x {
        Some(y) => text_read(y),
        None => None,
    }
}

/// `k` is the items of an optional value when it is an array, else none.
pub open spec fn opt_items_read(k: Option<Vec<Option<String>>>, x: Option<toml::Value>) -> bool {
    match x {
        Some(y) => match toml_shape(y) {
            TomlShape::List(items) => k is Some && items_read(k->0@, items@),
            _ => k is None,
        },
        None => k is None,
    }
}

/// `sv` is what the catalog reads of a shortcut value.
pub open spec fn shortcut_read(sv: ShortcutValue, x: toml::Value) -> bool {
    match toml_shape(x) {
        TomlShape::List(items) => sv is Keys && items_read(sv->Keys_0@, items@),
        TomlShape::Table(e) => sv is Entry && opt_items_read(sv->keys, entry_named(e@, "keys"@)) && opt_text_read(
            sv->group,
            entry_named(e@, "group"@),
        ) && opt_text_read(sv->description, entry_named(e@, "description"@)),
        _ => sv is Other,
    }
}

/// `es` are the entries of a shortcuts table, read one by one.
pub open spec fn shortcut_entries_read(es: Seq<(String, ShortcutValue)>, e: Seq<(String, toml::Value)>) -> bool {
    &&& es.len() == e.len()
    &&& forall|i: int| 0 <= i < e.len() ==> (#[trigger] es[i]).0@ == e[i].0@ && shortcut_read(es[i].1, e[i].1)
}

/// `es` are the entries of an optional shortcuts table (none when the value
/// is missing or not a table).
pub open spec fn table_entries_read(es: Seq<(String, ShortcutValue)>, x: Option<toml::Value>) -> bool {
    match x {
        Some(y) => match toml_shape(y) {
            TomlShape::Table(e) => shortcut_entries_read(es, e@),
            _ => es.len() == 0,
        },
        None => es.len() == 0,
    }
}

/// `d` is what the catalog reads of a `keybindings.toml` value: the
/// entries of `shortcuts`, and for each entry of the `layout` table the
/// entries of its `shortcuts` table.
pub open spec fn keymap_read(d: KeymapDoc, v: toml::Value) -> bool {
    &&& table_entries_read(d.shortcuts@, get_value(v, "shortcuts"@))
    &&& match get_value(v, "layout"@) {
        Some(l) => match toml_shape(l) {
            TomlShape::Table(le) => d.layouts@.len() == le@.len() && forall|i: int|
                0 <= i < le@.len() ==> (#[trigger] d.layouts@[i]).0@ == le@[i].0@ && table_entries_read(
                    d.layouts@[i].1@,
                    get_value(le@[i].1, "shortcuts"@),
                ),
            _ => d.layouts@.len() == 0,
        },
        None => d.layouts@.len() == 0,
    }
}

fn items_of(xs: &Vec<toml::Value>) -> (r: Vec<Option<String>>)
    ensures
        items_read(r@, xs@),
{
    let mut r: Vec<Option<String>> = Vec::new();
    let mut i: usize = 0;
    while i < xs.len()
        invariant
            0 <= i <= xs@.len(),
            r@.len() == i,
            forall|j: int| 0 <= j < i ==> opt_text(#[trigger] r@[j]) == text_read(xs@[j]),
        decreases xs@.len() - i,
    {
        let item = match shape_of(&xs[i]) {
            TomlShape::Text(s) => Some(s),
            _ => None,
        };
        r.push(item);
        i = i + 1;
    }
    r
}

fn opt_text_of(x: Option<&toml::Value>) -> (r: Option<String>)
    ensures
        opt_text_read(
            r,
            match x {
                Some(y) => Some(*y),
                None => None,
            },
        ),
{
    match x {
        Some(y) => match shape_of(y) {
            TomlShape::Text(s) => Some(s),
            _ => None,
        },
        None => None,
    }
}

fn opt_items_of(x: Option<&toml::Value>) -> (r: Option<Vec<Option<String>>>)
    ensures
        opt_items_read(
            r,
            match x {
                Some(y) => Some(*y),
                None => None,
            },
        ),
{
    match x {
        Some(y) => match shape_of(y) {
            TomlShape::List(items) => Some(items_of(&items)),
            _ => None,
        },
        None => None,
    }
}

fn named<'a>(e: &'a Vec<(String, toml::Value)>, key: &str) -> (r: Option<&'a toml::Value>)
    ensures
        match entry_named(e@, key@) {
            Some(x) => r == Some(&x),
            None => r is None,
        },
{
    match find_entry(e, key) {
        Some(i) => Some(&e[i].1),
        None => None,
    }
}

fn shortcut_value_of(x: &toml::Value) -> (r: ShortcutValue)
    ensures
        shortcut_read(r, *x),
{
    match shape_of(x) {
        TomlShape::List(items) => ShortcutValue::Keys(items_of(&items)),
        TomlShape::Table(e) => ShortcutValue::Entry {
            keys: opt_items_of(named(&e, "keys")),
            group: opt_text_of(named(&e, "group")),
            description: opt_text_of(named(&e, "description")),
        },
        _ => ShortcutValue::Other,
    }
}

fn shortcut_entries_of(e: &Vec<(String, toml::Value)>) -> (r: Vec<(String, ShortcutValue)>)
    ensures
        shortcut_entries_read(r@, e@),
{
    let mut r: Vec<(String, ShortcutValue)> = Vec::new();
    let mut i: usize = 0;
    while i < e.len()
        invariant
            0 <= i <= e@.len(),
            r@.len() == i,
            forall|j: int| 0 <= j < i ==> (#[trigger] r@[j]).0@ == e@[j].0@ && shortcut_read(r@[j].1, e@[j].1),
        decreases e@.len() - i,
    {
        r.push((e[i].0.clone(), shortcut_value_of(&e[i].1)));
        i = i + 1;
    }
    r
}

fn table_entries_of(x: Option<toml::Value>) -> (r: Vec<(String, ShortcutValue)>)
    ensures
        table_entries_read(r@, x),
{
    match x {
        Some(y) => match shape_of(&y) {
            TomlShape::Table(e) => shortcut_entries_of(&e),
            _ => Vec::new(),
        },
        None => Vec::new(),
    }
}

/// What the catalog reads of a parsed `keybindings.toml` (`keymap_read`).
pub fn keymap_of_value(v: &toml::Value) -> (r: KeymapDoc)
    ensures
        keymap_read(r, *v),
{
    let shortcuts = table_entries_of(get_entry(v, "shortcuts"));
    let mut layouts: Vec<(String, Vec<(String, ShortcutValue)>)> = Vec::new();
    match get_entry(v, "layout") {
        Some(l) => match shape_of(&l) {
            TomlShape::Table(le) => {
                let mut i: usize = 0;
                while i < le.len()
                    invariant
                        0 <= i <= le@.len(),
                        layouts@.len() == i,
                        forall|j: int|
                            0 <= j < i ==> (#[trigger] layouts@[j]).0@ == le@[j].0@ && table_entries_read(
                                layouts@[j].1@,
                                get_value(le@[j].1, "shortcuts"@),
                            ),
                    decreases le@.len() - i,
                {
                    let entries = table_entries_of(get_entry(&le[i].1, "shortcuts"));
                    layouts.push((le[i].0.clone(), entries));
                    i = i + 1;
                }
            },
            _ => {},
        },
        None => {},
    }
    KeymapDoc { shortcuts, layouts }
}

impl ShortcutCatalog {
    /// The catalog of a `keybindings.toml` text (`from_doc` of what is read
    /// of it), with the overlay of `layout`; none when the text is not TOML.
    pub fn from_text(content: &str, layout: Option<&str>) -> (r: Option<ShortcutCatalog>)
        ensures
            r is None <==> toml_document(content@) is None,
            r matches Some(c) ==> exists|d: KeymapDoc|
                keymap_read(d, toml_document(content@)->0) && def_views(c.shortcuts@) == catalog_of(
                    d.shortcuts@,
                    overlay_for(
                        d,
                        match layout {
                            Some(l) => Some(l@),
                            None => None,
                        },
                    ),
                ),
    {
        match parse_toml(content) {
            Some(v) => {
                let d = keymap_of_value(&v);
                Some(ShortcutCatalog::from_doc(&d, layout))
            },
            None => None,
        }
    }

    /// Keys of every shortcut by layout (`all_layouts_of` of what is read of
    /// a `keybindings.toml` text); none when the text is not TOML.
    pub fn all_layouts_from_text(content: &str) -> (r: Option<StrMap<StrMap<Vec<String>>>>)
        ensures
            r is None <==> toml_document(content@) is None,
            r matches Some(m) ==> exists|d: KeymapDoc|
                keymap_read(d, toml_document(content@)->0) && layouts_view(m@) == all_layouts_of(d),
    {
        match parse_toml(content) {
            Some(v) => {
                let d = keymap_of_value(&v);
                Some(ShortcutCatalog::all_layouts_from_doc(&d))
            },
            None => None,
        }
    }
}

} // verus!
