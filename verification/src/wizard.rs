//! The feature list of the setup wizard: every feature with its enabled
//! flag, and for features that have variants, the variant choices of their
//! slot.
use vstd::prelude::*;

use crate::os::TargetOs;
use crate::strmap::StrMap;
use crate::text::{
    chars_lt, chars_of, copy_range, first_index_from, lemma_first_index_found, lemma_first_index_none,
    lemma_text_lt_asymmetric, lemma_text_lt_total, lemma_text_lt_transitive, string_of, text_lt,
};
use crate::variants::{
    default_pick, first_of, id_of, in_slot, on_family, refs, select, slot_order, Stability,
    VariantManifest, VariantResolver,
};

verus! {

/// One variant offered for a slot.
#[derive(Debug)]
pub struct VariantChoice {
    pub id: String,
    pub title: String,
    pub stability: Stability,
    pub is_default: bool,
}

/// The variant choices of a feature's slot, and the one selected.
#[derive(Debug)]
pub struct WizardFeatureSlot {
    pub slot_fqn: String,
    pub choices: Vec<VariantChoice>,
    pub selected_id: Option<String>,
}

/// A feature as the wizard shows it.
#[derive(Debug)]
pub struct WizardFeature {
    pub id: String,
    pub description: String,
    pub enabled: bool,
    pub slot: Option<WizardFeatureSlot>,
}

/// Plain view of a choice: id, title, stability, default flag.
pub type ChoiceView = (Seq<char>, Seq<char>, Stability, bool);

pub open spec fn choice_view(c: VariantChoice) -> ChoiceView {
    (c.id@, c.title@, c.stability, c.is_default)
}

pub open spec fn choice_views(s: Seq<VariantChoice>) -> Seq<ChoiceView> {
    s.map_values(|c: VariantChoice| choice_view(c))
}

/// The choice offered for a variant: its title defaults to its id.
pub open spec fn choice_of(v: VariantManifest) -> ChoiceView {
    (
        v.id@,
        match v.title {
            Some(t) => t@,
            None => v.id@,
        },
        v.stability,
        v.default,
    )
}

/// Stable variants come first.
pub open spec fn rank(c: ChoiceView) -> int {
    if c.2 == Stability::Stable {
        0
    } else {
        1
    }
}

/// `a` sorts strictly after `b`: by rank, then by id.
pub open spec fn sorts_after(a: ChoiceView, b: ChoiceView) -> bool {
    rank(a) > rank(b) || (rank(a) == rank(b) && text_lt(b.0, a.0))
}

/// `c` inserted before the first element that sorts after it.
pub open spec fn insert_choice(s: Seq<ChoiceView>, c: ChoiceView) -> Seq<ChoiceView>
    decreases s.len(),
{
    if s.len() == 0 {
        seq![c]
    } else if sorts_after(s[0], c) {
        seq![c] + s
    } else {
        seq![s[0]] + insert_choice(s.drop_first(), c)
    }
}

/// Stable sort of choices: stable variants first, then by id; equal keys
/// keep their order.
pub open spec fn sort_choices(s: Seq<ChoiceView>) -> Seq<ChoiceView>
    decreases s.len(),
{
    if s.len() == 0 {
        Seq::empty()
    } else {
        insert_choice(sort_choices(s.drop_last()), s.last())
    }
}

/// Inserting at the first position whose element sorts after `c`.
pub proof fn lemma_insert_choice_at(s: Seq<ChoiceView>, c: ChoiceView, pos: int)
    requires
        0 <= pos <= s.len(),
        forall|j: int| 0 <= j < pos ==> !sorts_after(#[trigger] s[j], c),
        pos < s.len() ==> sorts_after(s[pos], c),
    ensures
        insert_choice(s, c) == s.insert(pos, c),
    decreases s.len(),
{
    if s.len() == 0 {
        assert(s.insert(pos, c) =~= seq![c]);
    } else if pos == 0 {
        assert(s.insert(0, c) =~= seq![c] + s);
    } else {
        let t = s.drop_first();
        assert forall|j: int| 0 <= j < pos - 1 implies !sorts_after(#[trigger] t[j], c) by {
            assert(t[j] == s[j + 1]);
        }
        if pos - 1 < t.len() {
            assert(t[pos - 1] == s[pos]);
        }
        lemma_insert_choice_at(t, c, pos - 1);
        assert(s.insert(pos, c) =~= seq![s[0]] + t.insert(pos - 1, c));
    }
}

/// The choices of a slot on a platform family, sorted.
pub open spec fn slot_choices(vs: Seq<VariantManifest>, slot: Seq<char>, family: Seq<char>) -> Seq<ChoiceView> {
    sort_choices(select(select(vs, in_slot(slot)), on_family(family)).map_values(|v: VariantManifest| choice_of(v)))
}

/// The selected variant id of a slot: the explicit selection, else the id
/// of the default variant.
pub open spec fn selected_of(vs: Seq<VariantManifest>, slot: Seq<char>, family: Seq<char>, sel: Map<Seq<char>, String>) -> Option<
    Seq<char>,
> {
    if sel.contains_key(slot) {
        Some(sel[slot]@)
    } else {
        id_of(first_of(vs, default_pick(slot, family)))
    }
}

pub type SlotView = (Seq<char>, Seq<ChoiceView>, Option<Seq<char>>);

pub open spec fn opt_text(o: Option<String>) -> Option<Seq<char>> {
    match o {
        Some(s) => Some(s@),
        None => None,
    }
}

pub open spec fn slot_view(s: WizardFeatureSlot) -> SlotView {
    (s.slot_fqn@, choice_views(s.choices@), opt_text(s.selected_id))
}

/// What the wizard offers for `slot`: nothing when no variant of the slot
/// runs on the family, else the sorted choices and the selection.
pub open spec fn wizard_slot_of(vs: Seq<VariantManifest>, slot: Seq<char>, family: Seq<char>, sel: Map<Seq<char>, String>) -> Option<
    SlotView,
> {
    if select(select(vs, in_slot(slot)), on_family(family)).len() == 0 {
        None
    } else {
        Some((slot, slot_choices(vs, slot, family), selected_of(vs, slot, family, sel)))
    }
}

/// The feature a slot belongs to: the part of `<feature>.<slot>` before the
/// first dot (the whole name when there is none).
pub open spec fn feature_of_slot(slot: Seq<char>) -> Seq<char> {
    match first_index_from(slot, '.', 0) {
        Some(i) => slot.take(i),
        None => slot,
    }
}

/// Slots indexed by feature, over `slots` in order; a later slot of the same
/// feature replaces an earlier one.
pub open spec fn slots_by_feature(
    vs: Seq<VariantManifest>,
    slots: Seq<Seq<char>>,
    family: Seq<char>,
    sel: Map<Seq<char>, String>,
) -> Map<Seq<char>, SlotView>
    decreases slots.len(),
{
    if slots.len() == 0 {
        Map::empty()
    } else {
        let prev = slots_by_feature(vs, slots.drop_last(), family, sel);
        let s = slots.last();
        match wizard_slot_of(vs, s, family, sel) {
            Some(w) => prev.insert(feature_of_slot(s), w),
            None => prev,
        }
    }
}

pub open spec fn slot_map_view(m: Map<Seq<char>, WizardFeatureSlot>) -> Map<Seq<char>, SlotView> {
    m.map_values(|s: WizardFeatureSlot| slot_view(s))
}

impl VariantChoice {
    pub fn duplicate(&self) -> (r: Self)
        ensures
            choice_view(r) == choice_view(*self),
    {
        VariantChoice {
            id: self.id.clone(),
            title: self.title.clone(),
            stability: self.stability,
            is_default: self.is_default,
        }
    }
}

impl WizardFeatureSlot {
    pub fn duplicate(&self) -> (r: Self)
        ensures
            slot_view(r) == slot_view(*self),
    {
        let mut choices: Vec<VariantChoice> = Vec::new();
        let mut i: usize = 0;
        while i < self.choices.len()
            invariant
                0 <= i <= self.choices@.len(),
                choice_views(choices@) == choice_views(self.choices@).take(i as int),
            decreases self.choices@.len() - i,
        {
            let c = self.choices[i].duplicate();
            let ghost before = choice_views(choices@);
            choices.push(c);
            assert(choice_views(choices@) =~= before.push(choice_view(c)));
            assert(choice_views(self.choices@).take(i + 1) =~= choice_views(self.choices@).take(i as int).push(
                choice_view(self.choices@[i as int]),
            ));
            i = i + 1;
        }
        assert(choice_views(self.choices@).take(self.choices@.len() as int) =~= choice_views(self.choices@));
        let selected_id = match &self.selected_id {
            Some(s) => Some(s.clone()),
            None => None,
        };
        WizardFeatureSlot { slot_fqn: self.slot_fqn.clone(), choices, selected_id }
    }
}

fn sorts_after_exec(a: &VariantChoice, b: &VariantChoice) -> (r: bool)
    ensures
        r == sorts_after(choice_view(*a), choice_view(*b)),
{
    let ra: u8 = if matches!(a.stability, Stability::Stable) { 0 } else { 1 };
    let rb: u8 = if matches!(b.stability, Stability::Stable) { 0 } else { 1 };
    if ra != rb {
        ra > rb
    } else {
        let ai = chars_of(a.id.as_str());
        let bi = chars_of(b.id.as_str());
        chars_lt(&bi, &ai)
    }
}

/// Sorts choices: stable variants first, then by id, keeping the order of
/// equal keys (insertion sort).
pub fn sort_variant_choices(input: &Vec<VariantChoice>) -> (r: Vec<VariantChoice>)
    ensures
        choice_views(r@) == sort_choices(choice_views(input@)),
{
    let ghost iv = choice_views(input@);
    let mut out: Vec<VariantChoice> = Vec::new();
    let mut n: usize = 0;
    assert(iv.take(0) =~= Seq::<ChoiceView>::empty());
    while n < input.len()
        invariant
            0 <= n <= input@.len(),
            iv == choice_views(input@),
            choice_views(out@) == sort_choices(iv.take(n as int)),
        decreases input@.len() - n,
    {
        let c = input[n].duplicate();
        let ghost cv = choice_view(c);
        assert(cv == iv[n as int]);
        let mut pos: usize = 0;
        while pos < out.len()
            invariant
                0 <= pos <= out@.len(),
                forall|j: int| 0 <= j < pos ==> !sorts_after(#[trigger] choice_views(out@)[j], cv),
                cv == choice_view(c),
            ensures
                0 <= pos <= out@.len(),
                forall|j: int| 0 <= j < pos ==> !sorts_after(#[trigger] choice_views(out@)[j], cv),
                pos < out@.len() ==> sorts_after(choice_views(out@)[pos as int], cv),
            decreases out@.len() - pos,
        {
            if sorts_after_exec(&out[pos], &c) {
                break;
            }
            pos = pos + 1;
        }
        proof {
            let ov = choice_views(out@);
            if pos < out@.len() {
                assert(sorts_after(ov[pos as int], cv));
            }
            lemma_insert_choice_at(ov, cv, pos as int);
            assert(iv.take(n + 1).drop_last() =~= iv.take(n as int));
            assert(iv.take(n + 1).last() == cv);
        }
        let ghost before = choice_views(out@);
        out.insert(pos, c);
        assert(choice_views(out@) =~= before.insert(pos as int, cv));
        n = n + 1;
    }
    assert(iv.take(n as int) =~= iv);
    out
}

/// The feature of a slot name (`feature_of_slot`).
pub fn feature_of_slot_name(slot: &str) -> (r: String)
    ensures
        r@ == feature_of_slot(slot@),
{
    let c = chars_of(slot);
    let mut i: usize = 0;
    while i < c.len()
        invariant
            0 <= i <= c@.len(),
            c@ == slot@,
            forall|k: int| 0 <= k < i ==> c@[k] != '.',
        decreases c@.len() - i,
    {
        if c[i] == '.' {
            proof {
                lemma_first_index_found(c@, '.', 0, i as int);
            }
            let head = copy_range(&c, 0, i);
            assert(head@ =~= c@.take(i as int));
            return string_of(&head);
        }
        i = i + 1;
    }
    proof {
        lemma_first_index_none(c@, '.', 0);
    }
    String::from_str(slot)
}

/// What the wizard offers for `slot` on `os` (`wizard_slot_of`).
pub fn wizard_slot(resolver: &VariantResolver, slot: &str, os: &TargetOs, selections: &StrMap<String>) -> (r: Option<
    WizardFeatureSlot,
>)
    ensures
        match r {
            Some(w) => wizard_slot_of(resolver.loaded(), slot@, os.family(), selections@) == Some(slot_view(w)),
            None => wizard_slot_of(resolver.loaded(), slot@, os.family(), selections@) is None,
        },
{
    let all = resolver.list_variants(slot);
    let candidates = resolver.filter_by_os(os, all);
    let ghost cands = select(select(resolver.loaded(), in_slot(slot@)), on_family(os.family()));
    assert(refs(candidates@) == cands);
    if candidates.len() == 0 {
        return None;
    }
    let mut choices: Vec<VariantChoice> = Vec::new();
    let mut i: usize = 0;
    while i < candidates.len()
        invariant
            0 <= i <= candidates@.len(),
            refs(candidates@) == cands,
            choice_views(choices@) == cands.take(i as int).map_values(|v: VariantManifest| choice_of(v)),
        decreases candidates@.len() - i,
    {
        let v = candidates[i];
        let title = match &v.title {
            Some(t) => t.clone(),
            None => v.id.clone(),
        };
        let c = VariantChoice { id: v.id.clone(), title, stability: v.stability, is_default: v.default };
        proof {
            assert(cands[i as int] == *v);
            assert(choice_view(c) == choice_of(*v));
        }
        let ghost before = choice_views(choices@);
        choices.push(c);
        assert(choice_views(choices@) =~= before.push(choice_view(c)));
        assert(cands.take(i + 1).map_values(|v: VariantManifest| choice_of(v)) =~= cands.take(i as int).map_values(
            |v: VariantManifest| choice_of(v),
        ).push(choice_of(cands[i as int])));
        i = i + 1;
    }
    assert(cands.take(candidates@.len() as int) =~= cands);
    let sorted = sort_variant_choices(&choices);
    let selected_id = match selections.get(slot) {
        Some(s) => Some(s.clone()),
        None => match resolver.default_for(slot, os) {
            Some(v) => Some(v.id.clone()),
            None => None,
        },
    };
    let w = WizardFeatureSlot { slot_fqn: String::from_str(slot), choices: sorted, selected_id };
    Some(w)
}

/// The wizard's slots indexed by feature, over all slots in order
/// (`slots_by_feature`).
pub fn wizard_slots_by_feature(resolver: &VariantResolver, os: &TargetOs, selections: &StrMap<String>) -> (r:
    StrMap<WizardFeatureSlot>)
    ensures
        slot_map_view(r@) == slots_by_feature(
            resolver.loaded(),
            slot_order(resolver.loaded()),
            os.family(),
            selections@,
        ),
{
    let slots = resolver.list_slots();
    let ghost sl = crate::text::string_views(slots@);
    let mut m: StrMap<WizardFeatureSlot> = StrMap::new();
    let mut i: usize = 0;
    assert(sl.take(0) =~= Seq::<Seq<char>>::empty());
    assert(slot_map_view(m@) =~= Map::<Seq<char>, SlotView>::empty());
    while i < slots.len()
        invariant
            0 <= i <= slots@.len(),
            sl == crate::text::string_views(slots@),
            slot_map_view(m@) == slots_by_feature(resolver.loaded(), sl.take(i as int), os.family(), selections@),
        decreases slots@.len() - i,
    {
        let slot = slots[i].as_str();
        proof {
            assert(sl.take(i + 1).drop_last() =~= sl.take(i as int));
            assert(sl.take(i + 1).last() == slot@);
        }
        match wizard_slot(resolver, slot, os, selections) {
            Some(w) => {
                let f = feature_of_slot_name(slot);
                let ghost before = m@;
                let ghost wv = slot_view(w);
                let ghost fv = f@;
                m.insert(f, w);
                assert(slot_map_view(m@) =~= slot_map_view(before).insert(fv, wv));
            },
            None => {},
        }
        i = i + 1;
    }
    assert(sl.take(slots@.len() as int) =~= sl);
    m
}

pub type FeatureView = (Seq<char>, Seq<char>, bool, Option<SlotView>);

pub open spec fn feature_view(f: WizardFeature) -> FeatureView {
    (
        f.id@,
        f.description@,
        f.enabled,
        match f.slot {
            Some(s) => Some(slot_view(s)),
            None => None,
        },
    )
}

/// The wizard entry of a feature `(name, description)`: enabled unless
/// `data.toml` says otherwise, with an empty description when it has none,
/// and with its slot only when experimental variants are shown.
pub open spec fn wizard_feature_of(
    meta: (String, Option<String>),
    enabled: Map<Seq<char>, bool>,
    include_experimental: bool,
    slots: Map<Seq<char>, SlotView>,
) -> FeatureView {
    let id = meta.0@;
    (
        id,
        match meta.1 {
            Some(d) => d@,
            None => Seq::empty(),
        },
        if enabled.contains_key(id) {
            enabled[id]
        } else {
            true
        },
        if include_experimental && slots.contains_key(id) {
            Some(slots[id])
        } else {
            None
        },
    )
}

/// The wizard's feature list, in the order of `feature_meta`.
pub fn wizard_features(
    feature_meta: &Vec<(String, Option<String>)>,
    enabled: &StrMap<bool>,
    include_experimental: bool,
    slots: &StrMap<WizardFeatureSlot>,
) -> (r: Vec<WizardFeature>)
    ensures
        r@.map_values(|f: WizardFeature| feature_view(f)) == feature_meta@.map_values(
            |m: (String, Option<String>)| wizard_feature_of(m, enabled@, include_experimental, slot_map_view(slots@)),
        ),
{
    let ghost target = feature_meta@.map_values(
        |m: (String, Option<String>)| wizard_feature_of(m, enabled@, include_experimental, slot_map_view(slots@)),
    );
    let mut r: Vec<WizardFeature> = Vec::new();
    let mut i: usize = 0;
    while i < feature_meta.len()
        invariant
            0 <= i <= feature_meta@.len(),
            target == feature_meta@.map_values(
                |m: (String, Option<String>)| wizard_feature_of(m, enabled@, include_experimental, slot_map_view(slots@)),
            ),
            r@.map_values(|f: WizardFeature| feature_view(f)) == target.take(i as int),
        decreases feature_meta@.len() - i,
    {
        let (id, desc) = &feature_meta[i];
        let description = match desc {
            Some(d) => d.clone(),
            None => String::new(),
        };
        let on = match enabled.get(id.as_str()) {
            Some(b) => *b,
            None => true,
        };
        let slot = if include_experimental {
            match slots.get(id.as_str()) {
                Some(w) => Some(w.duplicate()),
                None => None,
            }
        } else {
            None
        };
        let f = WizardFeature { id: id.clone(), description, enabled: on, slot };
        proof {
            assert(feature_view(f) == target[i as int]);
        }
        let ghost before = r@.map_values(|f: WizardFeature| feature_view(f));
        r.push(f);
        assert(r@.map_values(|f: WizardFeature| feature_view(f)) =~= before.push(feature_view(f)));
        assert(target.take(i + 1) =~= target.take(i as int).push(target[i as int]));
        i = i + 1;
    }
    assert(target.take(feature_meta@.len() as int) =~= target);
    r
}

// ── Laws ────────────────────────────────────────────────────────────────────

/// `s` is ordered: no choice sorts after a later one.
pub open spec fn choices_ordered(s: Seq<ChoiceView>) -> bool {
    forall|i: int, j: int| 0 <= i < j < s.len() ==> !sorts_after(#[trigger] s[i], #[trigger] s[j])
}

/// Not sorting after is transitive (the order is a total preorder).
pub proof fn lemma_not_after_transitive(a: ChoiceView, b: ChoiceView, c: ChoiceView)
    requires
        !sorts_after(a, b),
        !sorts_after(b, c),
    ensures
        !sorts_after(a, c),
{
    if rank(a) == rank(b) && rank(b) == rank(c) {
        lemma_text_lt_total(a.0, b.0);
        lemma_text_lt_total(b.0, c.0);
        if text_lt(c.0, a.0) {
            if a.0 == b.0 {
                lemma_text_lt_asymmetric(c.0, a.0);
            } else if b.0 == c.0 {
                lemma_text_lt_asymmetric(c.0, a.0);
            } else {
                lemma_text_lt_transitive(a.0, b.0, c.0);
                lemma_text_lt_asymmetric(a.0, c.0);
            }
        }
    }
}

proof fn lemma_not_after_total(a: ChoiceView, b: ChoiceView)
    ensures
        !sorts_after(a, b) || !sorts_after(b, a),
{
    if rank(a) == rank(b) && text_lt(b.0, a.0) && text_lt(a.0, b.0) {
        lemma_text_lt_asymmetric(a.0, b.0);
    }
}

pub proof fn lemma_insert_choice_ordered(s: Seq<ChoiceView>, c: ChoiceView)
    requires
        choices_ordered(s),
    ensures
        choices_ordered(insert_choice(s, c)),
        insert_choice(s, c).len() == s.len() + 1,
        forall|x: ChoiceView| #[trigger] insert_choice(s, c).contains(x) <==> (s.contains(x) || x == c),
    decreases s.len(),
{
    let r = insert_choice(s, c);
    if s.len() == 0 {
        assert forall|x: ChoiceView| #[trigger] r.contains(x) <==> (s.contains(x) || x == c) by {
            if x == c {
                assert(r[0] == x);
            }
        }
    } else if sorts_after(s[0], c) {
        lemma_not_after_total(s[0], c);
        assert forall|i: int, j: int| 0 <= i < j < r.len() implies !sorts_after(#[trigger] r[i], #[trigger] r[j]) by {
            if i == 0 {
                if j > 1 {
                    assert(!sorts_after(s[0], s[j - 1]));
                    lemma_not_after_transitive(c, s[0], s[j - 1]);
                }
            } else {
                assert(!sorts_after(s[i - 1], s[j - 1]));
            }
        }
        assert forall|x: ChoiceView| #[trigger] r.contains(x) <==> (s.contains(x) || x == c) by {
            if r.contains(x) {
                let i = choose|i: int| 0 <= i < r.len() && r[i] == x;
                if i > 0 {
                    assert(s[i - 1] == x);
                }
            }
            if s.contains(x) {
                let i = choose|i: int| 0 <= i < s.len() && s[i] == x;
                assert(r[i + 1] == x);
            }
            if x == c {
                assert(r[0] == x);
            }
        }
    } else {
        let t = s.drop_first();
        assert(choices_ordered(t)) by {
            assert forall|i: int, j: int| 0 <= i < j < t.len() implies !sorts_after(#[trigger] t[i], #[trigger] t[j]) by {
                assert(!sorts_after(s[i + 1], s[j + 1]));
            }
        }
        lemma_insert_choice_ordered(t, c);
        let rt = insert_choice(t, c);
        assert forall|x: ChoiceView| rt.contains(x) implies !sorts_after(s[0], x) by {
            if x != c {
                assert(t.contains(x));
                let i = choose|i: int| 0 <= i < t.len() && t[i] == x;
                assert(!sorts_after(s[0], s[i + 1]));
            }
        }
        assert forall|i: int, j: int| 0 <= i < j < r.len() implies !sorts_after(#[trigger] r[i], #[trigger] r[j]) by {
            if i == 0 {
                assert(rt.contains(rt[j - 1]));
            } else {
                assert(!sorts_after(rt[i - 1], rt[j - 1]));
            }
        }
        assert forall|x: ChoiceView| #[trigger] r.contains(x) <==> (s.contains(x) || x == c) by {
            if r.contains(x) {
                let i = choose|i: int| 0 <= i < r.len() && r[i] == x;
                if i > 0 {
                    assert(rt.contains(x));
                    if x != c {
                        let k = choose|k: int| 0 <= k < t.len() && t[k] == x;
                        assert(s[k + 1] == x);
                    }
                }
            }
            if s.contains(x) {
                let i = choose|i: int| 0 <= i < s.len() && s[i] == x;
                if i == 0 {
                    assert(r[0] == x);
                } else {
                    assert(t[i - 1] == x);
                    assert(rt.contains(x));
                    let k = choose|k: int| 0 <= k < rt.len() && rt[k] == x;
                    assert(r[k + 1] == x);
                }
            }
            if x == c {
                assert(rt.contains(x));
                let k = choose|k: int| 0 <= k < rt.len() && rt[k] == x;
                assert(r[k + 1] == x);
            }
        }
    }
}

/// The wizard lists a slot's choices stable variants first, then by id:
/// the sorted list is ordered, as long as the input, and holds exactly the
/// input's choices.
pub proof fn sorted_choices_law(s: Seq<ChoiceView>)
    ensures
        choices_ordered(sort_choices(s)),
        sort_choices(s).len() == s.len(),
        forall|x: ChoiceView| #[trigger] sort_choices(s).contains(x) <==> s.contains(x),
    decreases s.len(),
{
    if s.len() > 0 {
        let t = s.drop_last();
        sorted_choices_law(t);
        lemma_insert_choice_ordered(sort_choices(t), s.last());
        assert forall|x: ChoiceView| #[trigger] sort_choices(s).contains(x) <==> s.contains(x) by {
            if s.contains(x) && x != s.last() {
                let i = choose|i: int| 0 <= i < s.len() && s[i] == x;
                assert(t[i] == x);
                assert(t.contains(x));
            }
            if t.contains(x) {
                let i = choose|i: int| 0 <= i < t.len() && t[i] == x;
                assert(s[i] == x);
            }
            if x == s.last() {
                assert(s[s.len() - 1] == x);
            }
        }
    }
}

} // verus!
