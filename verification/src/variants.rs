//! Feature variants: alternatives that fill a slot of a feature (one window
//! manager out of several, say), and the rules that pick the active one.
use vstd::prelude::*;

use crate::os::TargetOs;
use crate::path::{
    covered, first_of_class, has_origin, paths_sorted, sort_dedup_paths, sort_progress, sorted_unique_paths,
};
use crate::strmap::{insert_sorted, keys_of, lemma_insert_sorted, lemma_sorted_unique, strictly_sorted, StrMap};
use crate::error::KaizenError;
use crate::fs::FileSystem;
use crate::plan::HookPlan;
use crate::text::{extend_strings, join_path_str, path_join, str_eq, string_views};

verus! {

// ── Domain types ────────────────────────────────────────────────────────────

/// Maturity of a variant.
#[derive(Debug, Clone, Copy, PartialEq, Eq, Structural)]
pub enum Stability {
    Stable,
    Experimental,
}

impl Stability {
    /// Lowercase name, as written in `variant.toml`.
    pub fn as_str(&self) -> (s: &'static str)
        ensures
            *self == Stability::Stable ==> s@ == "stable"@,
            *self == Stability::Experimental ==> s@ == "experimental"@,
    {
        match self {
            Stability::Stable => "stable",
            Stability::Experimental => "experimental",
        }
    }
}

/// A slot that variants fill.
#[derive(Debug, Clone)]
pub struct Slot {
    pub id: String,
    pub required: bool,
    pub description: Option<String>,
}

/// A variant, as described by its `variant.toml`.
#[derive(Debug, Clone)]
pub struct VariantManifest {
    pub id: String,
    /// Fully-qualified slot reference: `<feature>.<slot_id>`, e.g. `tiling.wm`.
    pub slot: String,
    pub title: Option<String>,
    pub stability: Stability,
    pub platforms: Vec<String>,
    pub default: bool,
    pub provides: VariantProvides,
    pub requires: VariantRequires,
    /// Commands the variant runs at the workflow's phases.
    pub hooks: VariantHooks,
    /// Directory of the variant (set by the loader, not part of the TOML file).
    pub dir: String,
}

/// Commands a variant runs at the workflow's phases.
#[derive(Debug, Clone, Default)]
pub struct VariantHooks {
    /// Shell commands run after the dotfiles are applied.
    pub post_apply: Vec<String>,
}

/// What a variant contributes.
#[derive(Debug, Clone, Default)]
pub struct VariantProvides {
    pub nix_modules: Vec<String>,
    pub dotfile_paths: Vec<String>,
}

/// What a variant needs.
#[derive(Debug, Clone, Default)]
pub struct VariantRequires {
    pub features: Vec<String>,
}

// ── Model ───────────────────────────────────────────────────────────────────

/// The variant runs on the platform family `family`: it names no platform,
/// or names this one.
pub open spec fn supports(v: VariantManifest, family: Seq<char>) -> bool {
    v.platforms@.len() == 0 || exists|i: int|
        0 <= i < v.platforms@.len() && #[trigger] v.platforms@[i]@ == family
}

/// The variants of `vs` that satisfy `keep`, in their order.
pub open spec fn select(vs: Seq<VariantManifest>, keep: spec_fn(VariantManifest) -> bool) -> Seq<
    VariantManifest,
>
    decreases vs.len(),
{
    if vs.len() == 0 {
        Seq::empty()
    } else {
        let prev = select(vs.drop_last(), keep);
        if keep(vs.last()) {
            prev.push(vs.last())
        } else {
            prev
        }
    }
}

/// The first variant of `vs` that satisfies `keep`.
pub open spec fn first_of(vs: Seq<VariantManifest>, keep: spec_fn(VariantManifest) -> bool) -> Option<
    VariantManifest,
>
    decreases vs.len(),
{
    if vs.len() == 0 {
        None
    } else if keep(vs[0]) {
        Some(vs[0])
    } else {
        first_of(vs.drop_first(), keep)
    }
}

pub open spec fn in_slot(slot: Seq<char>) -> spec_fn(VariantManifest) -> bool {
    |v: VariantManifest| v.slot@ == slot
}

pub open spec fn on_family(family: Seq<char>) -> spec_fn(VariantManifest) -> bool {
    |v: VariantManifest| supports(v, family)
}

pub open spec fn is_stable() -> spec_fn(VariantManifest) -> bool {
    |v: VariantManifest| v.stability == Stability::Stable
}

pub open spec fn chosen(slot: Seq<char>, id: Seq<char>) -> spec_fn(VariantManifest) -> bool {
    |v: VariantManifest| v.slot@ == slot && v.id@ == id
}

pub open spec fn default_pick(slot: Seq<char>, family: Seq<char>) -> spec_fn(VariantManifest) -> bool {
    |v: VariantManifest|
        v.slot@ == slot && v.default && v.stability == Stability::Stable && supports(v, family)
}

/// The variants behind a list of references.
pub open spec fn refs(s: Seq<&VariantManifest>) -> Seq<VariantManifest> {
    s.map_values(|v: &VariantManifest| *v)
}

pub proof fn lemma_refs_push(s: Seq<&VariantManifest>, v: &VariantManifest)
    ensures
        refs(s.push(v)) == refs(s).push(*v),
{
    assert(refs(s.push(v)) =~= refs(s).push(*v));
}

pub proof fn lemma_select_step(vs: Seq<VariantManifest>, keep: spec_fn(VariantManifest) -> bool, i: int)
    requires
        0 <= i < vs.len(),
    ensures
        select(vs.take(i + 1), keep) == if keep(vs[i]) {
            select(vs.take(i), keep).push(vs[i])
        } else {
            select(vs.take(i), keep)
        },
{
    assert(vs.take(i + 1).drop_last() =~= vs.take(i));
}

pub proof fn lemma_first_of_step(vs: Seq<VariantManifest>, keep: spec_fn(VariantManifest) -> bool, i: int)
    requires
        0 <= i < vs.len(),
    ensures
        first_of(vs.skip(i), keep) == if keep(vs[i]) {
            Some(vs[i])
        } else {
            first_of(vs.skip(i + 1), keep)
        },
{
    assert(vs.skip(i).drop_first() =~= vs.skip(i + 1));
}

/// Whether `v` runs on the platform family `family`.
pub fn supports_family(v: &VariantManifest, family: &str) -> (b: bool)
    ensures
        b == supports(*v, family@),
{
    if v.platforms.len() == 0 {
        return true;
    }
    let mut i: usize = 0;
    while i < v.platforms.len()
        invariant
            0 <= i <= v.platforms@.len(),
            forall|k: int| 0 <= k < i ==> #[trigger] v.platforms@[k]@ != family@,
        decreases v.platforms@.len() - i,
    {
        if str_eq(v.platforms[i].as_str(), family) {
            return true;
        }
        i = i + 1;
    }
    false
}

/// The variant behind an optional reference.
pub open spec fn opt_ref(o: Option<&VariantManifest>) -> Option<VariantManifest> {
    match o {
        Some(v) => Some(*v),
        None => None,
    }
}

/// The id of an optional variant.
pub open spec fn id_of(o: Option<VariantManifest>) -> Option<Seq<char>> {
    match o {
        Some(v) => Some(v.id@),
        None => None,
    }
}

/// Slots named by some variant of `vs`.
pub open spec fn slot_set(vs: Seq<VariantManifest>) -> Set<Seq<char>> {
    Set::new(|s: Seq<char>| exists|j: int| 0 <= j < vs.len() && #[trigger] vs[j].slot@ == s)
}

/// `s` lists the slots of `vs` by increasing name, each once.
pub open spec fn is_slot_order(vs: Seq<VariantManifest>, s: Seq<Seq<char>>) -> bool {
    strictly_sorted(s) && forall|k: Seq<char>| s.contains(k) <==> slot_set(vs).contains(k)
}

/// The slots of `vs` by increasing name (there is exactly one such list).
pub open spec fn slot_order(vs: Seq<VariantManifest>) -> Seq<Seq<char>> {
    choose|s: Seq<Seq<char>>| is_slot_order(vs, s)
}

/// Dotfile paths of the variants of `vs` (the variants of one slot) that run
/// on `family` and whose id is not the active one, in order.
pub open spec fn slot_paths(vs: Seq<VariantManifest>, family: Seq<char>, active: Option<Seq<char>>) -> Seq<
    Seq<char>,
>
    decreases vs.len(),
{
    if vs.len() == 0 {
        Seq::empty()
    } else {
        let v = vs.last();
        let prev = slot_paths(vs.drop_last(), family, active);
        if supports(v, family) && active != Some(v.id@) {
            prev + string_views(v.provides.dotfile_paths@)
        } else {
            prev
        }
    }
}

/// Some list orders the slots of `vs`, so `slot_order` is one.
pub proof fn lemma_slot_order(vs: Seq<VariantManifest>)
    ensures
        is_slot_order(vs, slot_order(vs)),
    decreases vs.len(),
{
    if vs.len() == 0 {
        let e = Seq::<Seq<char>>::empty();
        assert forall|k: Seq<char>| e.contains(k) <==> slot_set(vs).contains(k) by {
            if slot_set(vs).contains(k) {
                let j = choose|j: int| 0 <= j < vs.len() && #[trigger] vs[j].slot@ == k;
            }
        }
        assert(is_slot_order(vs, e));
    } else {
        let t = vs.drop_last();
        lemma_slot_order(t);
        let s0 = slot_order(t);
        let k = vs.last().slot@;
        let s1 = if s0.contains(k) {
            s0
        } else {
            lemma_insert_sorted(s0, k);
            insert_sorted(s0, k)
        };
        assert forall|x: Seq<char>| s1.contains(x) <==> slot_set(vs).contains(x) by {
            if s1.contains(x) {
                if x == k {
                    assert(vs[vs.len() - 1].slot@ == x);
                } else {
                    assert(s0.contains(x));
                    assert(slot_set(t).contains(x));
                    let j = choose|j: int| 0 <= j < t.len() && #[trigger] t[j].slot@ == x;
                    assert(vs[j].slot@ == x);
                }
            }
            if slot_set(vs).contains(x) {
                let j = choose|j: int| 0 <= j < vs.len() && #[trigger] vs[j].slot@ == x;
                if j < vs.len() - 1 {
                    assert(t[j].slot@ == x);
                    assert(slot_set(t).contains(x));
                }
            }
        }
        assert(is_slot_order(vs, s1));
    }
}

/// What `select` keeps: the variants of `vs` that satisfy `keep`.
pub proof fn lemma_select_members(vs: Seq<VariantManifest>, keep: spec_fn(VariantManifest) -> bool)
    ensures
        forall|i: int| 0 <= i < select(vs, keep).len() ==> keep(#[trigger] select(vs, keep)[i]) && vs.contains(
            select(vs, keep)[i],
        ),
        forall|j: int| 0 <= j < vs.len() && keep(#[trigger] vs[j]) ==> select(vs, keep).contains(vs[j]),
    decreases vs.len(),
{
    if vs.len() > 0 {
        let t = vs.drop_last();
        lemma_select_members(t, keep);
        let st = select(t, keep);
        let sv = select(vs, keep);
        assert forall|i: int| 0 <= i < sv.len() implies keep(#[trigger] sv[i]) && vs.contains(sv[i]) by {
            if i < st.len() {
                assert(sv[i] == st[i]);
                let j = choose|j: int| 0 <= j < t.len() && t[j] == st[i];
                assert(vs[j] == sv[i]);
            } else {
                assert(sv[i] == vs[vs.len() - 1]);
            }
        }
        assert forall|j: int| 0 <= j < vs.len() && keep(#[trigger] vs[j]) implies sv.contains(vs[j]) by {
            if j < vs.len() - 1 {
                assert(t[j] == vs[j]);
                assert(st.contains(vs[j]));
                let i = choose|i: int| 0 <= i < st.len() && st[i] == vs[j];
                assert(sv[i] == vs[j]);
            } else {
                assert(sv[sv.len() - 1] == vs[j]);
            }
        }
    }
}

/// A variant of a slot list contributes its dotfile paths when it runs on
/// `family` and its id is not `active`.
pub open spec fn contributes(v: VariantManifest, family: Seq<char>, active: Option<Seq<char>>) -> bool {
    supports(v, family) && active != Some(v.id@)
}

/// The paths in `slot_paths` are exactly the dotfile paths of the
/// contributing variants.
pub proof fn lemma_slot_paths_members(vs: Seq<VariantManifest>, family: Seq<char>, active: Option<Seq<char>>)
    ensures
        forall|x: Seq<char>| #[trigger] slot_paths(vs, family, active).contains(x) <==> exists|j: int, k: int|
            0 <= j < vs.len() && contributes(vs[j], family, active) && 0 <= k
                < vs[j].provides.dotfile_paths@.len() && #[trigger] vs[j].provides.dotfile_paths@[k]@ == x,
    decreases vs.len(),
{
    if vs.len() > 0 {
        let t = vs.drop_last();
        lemma_slot_paths_members(t, family, active);
        let v = vs.last();
        let pt = slot_paths(t, family, active);
        let extra = string_views(v.provides.dotfile_paths@);
        assert forall|x: Seq<char>| #[trigger] slot_paths(vs, family, active).contains(x) <==> exists|j: int, k: int|
            0 <= j < vs.len() && contributes(vs[j], family, active) && 0 <= k
                < vs[j].provides.dotfile_paths@.len() && #[trigger] vs[j].provides.dotfile_paths@[k]@ == x by {
            let ps = slot_paths(vs, family, active);
            if ps.contains(x) {
                let i = choose|i: int| 0 <= i < ps.len() && ps[i] == x;
                if i < pt.len() {
                    assert(pt[i] == x);
                    assert(pt.contains(x));
                    let (j, k) = choose|j: int, k: int|
                        0 <= j < t.len() && contributes(t[j], family, active) && 0 <= k
                            < t[j].provides.dotfile_paths@.len() && #[trigger] t[j].provides.dotfile_paths@[k]@ == x;
                    assert(vs[j] == t[j]);
                    assert(vs[j].provides.dotfile_paths@[k]@ == x);
                } else {
                    assert(contributes(v, family, active));
                    assert(extra[i - pt.len()] == x);
                    assert(vs[vs.len() - 1].provides.dotfile_paths@[i - pt.len()]@ == x);
                }
            }
            if exists|j: int, k: int|
                0 <= j < vs.len() && contributes(vs[j], family, active) && 0 <= k
                    < vs[j].provides.dotfile_paths@.len() && #[trigger] vs[j].provides.dotfile_paths@[k]@ == x {
                let (j, k) = choose|j: int, k: int|
                    0 <= j < vs.len() && contributes(vs[j], family, active) && 0 <= k
                        < vs[j].provides.dotfile_paths@.len() && #[trigger] vs[j].provides.dotfile_paths@[k]@ == x;
                if j < vs.len() - 1 {
                    assert(t[j] == vs[j]);
                    assert(t[j].provides.dotfile_paths@[k]@ == x);
                    assert(pt.contains(x));
                    let i = choose|i: int| 0 <= i < pt.len() && pt[i] == x;
                    assert(ps[i] == x);
                } else {
                    assert(extra[k] == x);
                    assert(ps[pt.len() + k] == x);
                }
            }
        }
    }
}

// ── Resolver ────────────────────────────────────────────────────────────────

/// Picks variants for slots from a list of loaded variants.
pub struct VariantResolver {
    variants: Vec<VariantManifest>,
}

impl VariantResolver {
    /// The loaded variants, in load order.
    pub closed spec fn loaded(&self) -> Seq<VariantManifest> {
        self.variants@
    }

    /// The variant explicitly selected for `slot` in `sel`: the first one of
    /// the slot whose id is the selection.
    pub open spec fn active_of(&self, slot: Seq<char>, sel: Map<Seq<char>, String>) -> Option<VariantManifest> {
        if sel.contains_key(slot) {
            first_of(self.loaded(), chosen(slot, sel[slot]@))
        } else {
            None
        }
    }

    /// The default variant of `slot` on the platform family `family`.
    pub open spec fn default_of(&self, slot: Seq<char>, family: Seq<char>) -> Option<VariantManifest> {
        first_of(self.loaded(), default_pick(slot, family))
    }

    /// Explicit selection, else default.
    pub open spec fn effective_of(&self, slot: Seq<char>, family: Seq<char>, sel: Map<Seq<char>, String>) -> Option<
        VariantManifest,
    > {
        match self.active_of(slot, sel) {
            Some(v) => Some(v),
            None => self.default_of(slot, family),
        }
    }

    pub fn new(variants: Vec<VariantManifest>) -> (r: Self)
        ensures
            r.loaded() == variants@,
    {
        VariantResolver { variants }
    }

    pub fn all(&self) -> (r: &[VariantManifest])
        ensures
            r@ == self.loaded(),
    {
        self.variants.as_slice()
    }

    /// Dotfile paths of the inactive variants of each slot of `slots`, slot
    /// by slot.
    pub open spec fn inactive_over(&self, slots: Seq<Seq<char>>, family: Seq<char>, sel: Map<Seq<char>, String>) -> Seq<
        Seq<char>,
    >
        decreases slots.len(),
    {
        if slots.len() == 0 {
            Seq::empty()
        } else {
            let s = slots.last();
            self.inactive_over(slots.drop_last(), family, sel) + slot_paths(
                select(self.loaded(), in_slot(s)),
                family,
                id_of(self.effective_of(s, family, sel)),
            )
        }
    }

    /// `v` supports `family` (no platforms, or `family` among them) and its
    /// id is not that of its slot's effective variant (`contributes`).
    pub open spec fn inactive(&self, v: VariantManifest, family: Seq<char>, sel: Map<Seq<char>, String>) -> bool {
        contributes(v, family, id_of(self.effective_of(v.slot@, family, sel)))
    }

    /// `x` is a dotfile path of some loaded variant that is inactive on
    /// `family` under `sel`.
    pub open spec fn inactive_path(&self, x: Seq<char>, family: Seq<char>, sel: Map<Seq<char>, String>) -> bool {
        exists|j: int, k: int|
            0 <= j < self.loaded().len() && self.inactive(self.loaded()[j], family, sel) && 0 <= k
                < self.loaded()[j].provides.dotfile_paths@.len()
                && #[trigger] self.loaded()[j].provides.dotfile_paths@[k]@ == x
    }

    /// The paths gathered over `slots` are the dotfile paths of the inactive
    /// loaded variants whose slot is listed.
    pub proof fn lemma_inactive_over_members(&self, slots: Seq<Seq<char>>, family: Seq<char>, sel: Map<Seq<char>, String>)
        ensures
            forall|x: Seq<char>| #[trigger] self.inactive_over(slots, family, sel).contains(x) <==> exists|j: int, k: int|
                0 <= j < self.loaded().len() && slots.contains(self.loaded()[j].slot@) && self.inactive(
                    self.loaded()[j],
                    family,
                    sel,
                ) && 0 <= k < self.loaded()[j].provides.dotfile_paths@.len()
                    && #[trigger] self.loaded()[j].provides.dotfile_paths@[k]@ == x,
        decreases slots.len(),
    {
        let vs = self.loaded();
        if slots.len() == 0 {
            assert forall|x: Seq<char>| #[trigger] self.inactive_over(slots, family, sel).contains(x) <==> exists|j: int, k: int|
                0 <= j < vs.len() && slots.contains(vs[j].slot@) && self.inactive(vs[j], family, sel) && 0 <= k
                    < vs[j].provides.dotfile_paths@.len() && #[trigger] vs[j].provides.dotfile_paths@[k]@ == x by {
                if exists|j: int, k: int|
                    0 <= j < vs.len() && slots.contains(vs[j].slot@) && self.inactive(vs[j], family, sel) && 0 <= k
                        < vs[j].provides.dotfile_paths@.len() && #[trigger] vs[j].provides.dotfile_paths@[k]@ == x {
                    let (j, k) = choose|j: int, k: int|
                        0 <= j < vs.len() && slots.contains(vs[j].slot@) && self.inactive(vs[j], family, sel) && 0 <= k
                            < vs[j].provides.dotfile_paths@.len() && #[trigger] vs[j].provides.dotfile_paths@[k]@ == x;
                    let i = choose|i: int| 0 <= i < slots.len() && slots[i] == vs[j].slot@;
                }
            }
        } else {
            let st = slots.drop_last();
            let s = slots.last();
            self.lemma_inactive_over_members(st, family, sel);
            let sv = select(vs, in_slot(s));
            let act = id_of(self.effective_of(s, family, sel));
            lemma_select_members(vs, in_slot(s));
            lemma_slot_paths_members(sv, family, act);
            let head = self.inactive_over(st, family, sel);
            let tail = slot_paths(sv, family, act);
            let all = self.inactive_over(slots, family, sel);
            assert(all == head + tail);
            assert forall|x: Seq<char>| #[trigger] all.contains(x) <==> exists|j: int, k: int|
                0 <= j < vs.len() && slots.contains(vs[j].slot@) && self.inactive(vs[j], family, sel) && 0 <= k
                    < vs[j].provides.dotfile_paths@.len() && #[trigger] vs[j].provides.dotfile_paths@[k]@ == x by {
                if all.contains(x) {
                    let i = choose|i: int| 0 <= i < all.len() && all[i] == x;
                    if i < head.len() {
                        assert(head[i] == x);
                        assert(head.contains(x));
                        let (j, k) = choose|j: int, k: int|
                            0 <= j < vs.len() && st.contains(vs[j].slot@) && self.inactive(vs[j], family, sel) && 0 <= k
                                < vs[j].provides.dotfile_paths@.len() && #[trigger] vs[j].provides.dotfile_paths@[k]@ == x;
                        let a = choose|a: int| 0 <= a < st.len() && st[a] == vs[j].slot@;
                        assert(slots[a] == vs[j].slot@);
                        assert(vs[j].provides.dotfile_paths@[k]@ == x);
                    } else {
                        assert(tail[i - head.len()] == x);
                        assert(tail.contains(x));
                        let (j2, k) = choose|j2: int, k: int|
                            0 <= j2 < sv.len() && contributes(sv[j2], family, act) && 0 <= k
                                < sv[j2].provides.dotfile_paths@.len() && #[trigger] sv[j2].provides.dotfile_paths@[k]@ == x;
                        let v = sv[j2];
                        assert(in_slot(s)(v));
                        assert(vs.contains(v));
                        let j = choose|j: int| 0 <= j < vs.len() && vs[j] == v;
                        assert(v.slot@ == s);
                        assert(slots[slots.len() - 1] == vs[j].slot@);
                        assert(self.inactive(vs[j], family, sel));
                        assert(vs[j].provides.dotfile_paths@[k]@ == x);
                    }
                }
                if exists|j: int, k: int|
                    0 <= j < vs.len() && slots.contains(vs[j].slot@) && self.inactive(vs[j], family, sel) && 0 <= k
                        < vs[j].provides.dotfile_paths@.len() && #[trigger] vs[j].provides.dotfile_paths@[k]@ == x {
                    let (j, k) = choose|j: int, k: int|
                        0 <= j < vs.len() && slots.contains(vs[j].slot@) && self.inactive(vs[j], family, sel) && 0 <= k
                            < vs[j].provides.dotfile_paths@.len() && #[trigger] vs[j].provides.dotfile_paths@[k]@ == x;
                    let v = vs[j];
                    if v.slot@ == s {
                        assert(in_slot(s)(vs[j]));
                        assert(sv.contains(v));
                        let j2 = choose|j2: int| 0 <= j2 < sv.len() && sv[j2] == v;
                        assert(sv[j2].provides.dotfile_paths@[k]@ == x);
                        assert(tail.contains(x));
                        let i = choose|i: int| 0 <= i < tail.len() && tail[i] == x;
                        assert(all[head.len() + i] == x);
                    } else {
                        let a = choose|a: int| 0 <= a < slots.len() && slots[a] == v.slot@;
                        assert(a < slots.len() - 1);
                        assert(st[a] == v.slot@);
                        assert(st.contains(v.slot@));
                        assert(head.contains(x));
                        let i = choose|i: int| 0 <= i < head.len() && head[i] == x;
                        assert(all[i] == x);
                    }
                }
            }
        }
    }

    /// Distinct slots across all loaded variants, sorted.
    pub fn list_slots(&self) -> (r: Vec<String>)
        ensures
            is_slot_order(self.loaded(), string_views(r@)),
            string_views(r@) == slot_order(self.loaded()),
    {
        let ghost vs = self.variants@;
        let mut m: StrMap<()> = StrMap::new();
        let mut i: usize = 0;
        while i < self.variants.len()
            invariant
                0 <= i <= vs.len(),
                vs == self.variants@,
                forall|k: Seq<char>| #[trigger] m@.contains_key(k) <==> exists|j: int| 0 <= j < i && vs[j].slot@ == k,
            decreases vs.len() - i,
        {
            let ghost before = m@;
            m.insert(self.variants[i].slot.clone(), ());
            proof {
                assert forall|k: Seq<char>| #[trigger] m@.contains_key(k) <==> exists|j: int| 0 <= j < i + 1 && vs[j].slot@ == k by {
                    if k == vs[i as int].slot@ {
                        assert(0 <= i < i + 1 && vs[i as int].slot@ == k);
                    } else if exists|j: int| 0 <= j < i + 1 && vs[j].slot@ == k {
                        let j = choose|j: int| 0 <= j < i + 1 && vs[j].slot@ == k;
                        assert(j < i);
                        assert(before.contains_key(k));
                    }
                }
            }
            i = i + 1;
        }
        let e = m.entries();
        let mut r: Vec<String> = Vec::new();
        let mut n: usize = 0;
        while n < e.len()
            invariant
                0 <= n <= e@.len(),
                r@.len() == n,
                forall|k: int| 0 <= k < n ==> #[trigger] r@[k]@ == e@[k].0@,
            decreases e@.len() - n,
        {
            r.push(e[n].0.clone());
            n = n + 1;
        }
        proof {
            let sv = string_views(r@);
            assert(sv =~= keys_of(e@));
            assert forall|k: Seq<char>| sv.contains(k) <==> slot_set(vs).contains(k) by {
                if sv.contains(k) {
                    let x = choose|x: int| 0 <= x < sv.len() && sv[x] == k;
                    assert(e@[x].0@ == k);
                    assert(m@.contains_key(k));
                    let j = choose|j: int| 0 <= j < vs.len() && vs[j].slot@ == k;
                    assert(vs[j].slot@ == k);
                }
                if slot_set(vs).contains(k) {
                    let j = choose|j: int| 0 <= j < vs.len() && #[trigger] vs[j].slot@ == k;
                    assert(m@.contains_key(k));
                    let x = choose|x: int| 0 <= x < e@.len() && e@[x].0@ == k;
                    assert(sv[x] == k);
                }
            }
            assert(is_slot_order(vs, sv));
            let c = slot_order(vs);
            assert(is_slot_order(vs, c));
            lemma_sorted_unique(sv, c);
        }
        r
    }

    /// The variants of `slot`, in load order.
    pub fn list_variants(&self, slot: &str) -> (r: Vec<&VariantManifest>)
        ensures
            refs(r@) == select(self.loaded(), in_slot(slot@)),
    {
        let mut r: Vec<&VariantManifest> = Vec::new();
        let mut i: usize = 0;
        while i < self.variants.len()
            invariant
                0 <= i <= self.variants@.len(),
                refs(r@) == select(self.variants@.take(i as int), in_slot(slot@)),
            decreases self.variants@.len() - i,
        {
            let v = &self.variants[i];
            proof {
                lemma_select_step(self.variants@, in_slot(slot@), i as int);
            }
            if str_eq(v.slot.as_str(), slot) {
                proof {
                    lemma_refs_push(r@, v);
                }
                r.push(v);
            }
            i = i + 1;
        }
        assert(self.variants@.take(self.variants@.len() as int) =~= self.variants@);
        r
    }

    /// The variants of `variants` that run on `os`.
    pub fn filter_by_os<'a>(&'a self, os: &TargetOs, variants: Vec<&'a VariantManifest>) -> (r: Vec<
        &'a VariantManifest,
    >)
        ensures
            refs(r@) == select(refs(variants@), on_family(os.family())),
    {
        let family = os.platform_family();
        let mut r: Vec<&VariantManifest> = Vec::new();
        let mut i: usize = 0;
        while i < variants.len()
            invariant
                0 <= i <= variants@.len(),
                family@ == os.family(),
                refs(r@) == select(refs(variants@).take(i as int), on_family(os.family())),
            decreases variants@.len() - i,
        {
            let v = variants[i];
            proof {
                lemma_select_step(refs(variants@), on_family(os.family()), i as int);
            }
            if supports_family(v, family) {
                proof {
                    lemma_refs_push(r@, v);
                }
                r.push(v);
            }
            i = i + 1;
        }
        assert(refs(variants@).take(variants@.len() as int) =~= refs(variants@));
        r
    }

    /// The stable variants of `variants`, or all of them when experimental
    /// ones are allowed.
    pub fn filter_by_stability<'a>(&'a self, allow_experimental: bool, variants: Vec<&'a VariantManifest>) -> (r: Vec<
        &'a VariantManifest,
    >)
        ensures
            allow_experimental ==> r@ == variants@,
            !allow_experimental ==> refs(r@) == select(refs(variants@), is_stable()),
    {
        if allow_experimental {
            return variants;
        }
        let mut r: Vec<&VariantManifest> = Vec::new();
        let mut i: usize = 0;
        while i < variants.len()
            invariant
                0 <= i <= variants@.len(),
                refs(r@) == select(refs(variants@).take(i as int), is_stable()),
            decreases variants@.len() - i,
        {
            let v = variants[i];
            proof {
                lemma_select_step(refs(variants@), is_stable(), i as int);
            }
            if matches!(v.stability, Stability::Stable) {
                proof {
                    lemma_refs_push(r@, v);
                }
                r.push(v);
            }
            i = i + 1;
        }
        assert(refs(variants@).take(variants@.len() as int) =~= refs(variants@));
        r
    }

    /// The variant explicitly selected for `slot` in `variant_selections`, if
    /// the selection names a loaded variant of that slot; `None` otherwise
    /// (the caller then falls back to `default_for`).
    pub fn resolve_active<'a>(&'a self, slot: &str, variant_selections: &StrMap<String>) -> (r: Option<
        &'a VariantManifest,
    >)
        ensures
            opt_ref(r) == self.active_of(slot@, variant_selections@),
    {
        let selected = match variant_selections.get(slot) {
            Some(s) => s,
            None => return None,
        };
        assert(variant_selections@.contains_key(slot@));
        assert(selected@ == variant_selections@[slot@]@);
        let ghost vs = self.variants@;
        let ghost keep = chosen(slot@, selected@);
        assert(self.active_of(slot@, variant_selections@) == first_of(vs, keep));
        let mut i: usize = 0;
        assert(vs.skip(0) =~= vs);
        while i < self.variants.len()
            invariant
                0 <= i <= vs.len(),
                vs == self.variants@,
                keep == chosen(slot@, selected@),
                self.active_of(slot@, variant_selections@) == first_of(vs, keep),
                first_of(vs, keep) == first_of(vs.skip(i as int), keep),
            decreases vs.len() - i,
        {
            proof {
                lemma_first_of_step(vs, keep, i as int);
            }
            let v = &self.variants[i];
            if str_eq(v.slot.as_str(), slot) && str_eq(v.id.as_str(), selected.as_str()) {
                assert(keep(vs[i as int]));
                return Some(v);
            }
            i = i + 1;
        }
        assert(vs.skip(i as int) =~= Seq::<VariantManifest>::empty());
        None
    }

    /// Default variant for a slot on a given OS: the first stable variant
    /// marked `default` that runs on `os`.
    pub fn default_for<'a>(&'a self, slot: &str, os: &TargetOs) -> (r: Option<&'a VariantManifest>)
        ensures
            opt_ref(r) == self.default_of(slot@, os.family()),
    {
        let family = os.platform_family();
        let ghost vs = self.variants@;
        let ghost keep = default_pick(slot@, os.family());
        let mut i: usize = 0;
        assert(vs.skip(0) =~= vs);
        while i < self.variants.len()
            invariant
                0 <= i <= vs.len(),
                vs == self.variants@,
                family@ == os.family(),
                keep == default_pick(slot@, os.family()),
                first_of(vs, keep) == first_of(vs.skip(i as int), keep),
            decreases vs.len() - i,
        {
            proof {
                lemma_first_of_step(vs, keep, i as int);
            }
            let v = &self.variants[i];
            if str_eq(v.slot.as_str(), slot) && v.default && matches!(v.stability, Stability::Stable)
                && supports_family(v, family) {
                return Some(v);
            }
            i = i + 1;
        }
        assert(vs.skip(i as int) =~= Seq::<VariantManifest>::empty());
        None
    }

    /// Effective variant for a slot: explicit selection, else default, else
    /// none.
    pub fn effective<'a>(&'a self, slot: &str, os: &TargetOs, variant_selections: &StrMap<String>) -> (r: Option<
        &'a VariantManifest,
    >)
        ensures
            opt_ref(r) == self.effective_of(slot@, os.family(), variant_selections@),
    {
        match self.resolve_active(slot, variant_selections) {
            Some(v) => Some(v),
            None => self.default_for(slot, os),
        }
    }

    /// Dotfile paths of the variants that run on `os` but are not the
    /// effective one of their slot, sorted, with equal paths removed. These
    /// are the paths that chezmoi must not deploy.
    pub fn inactive_dotfile_paths(&self, os: &TargetOs, variant_selections: &StrMap<String>) -> (r: Vec<String>)
        ensures
            sorted_unique_paths(
                self.inactive_over(slot_order(self.loaded()), os.family(), variant_selections@),
                string_views(r@),
            ),
    {
        let family = os.platform_family();
        let slots = self.list_slots();
        let ghost sl = string_views(slots@);
        let ghost sel = variant_selections@;
        let mut paths: Vec<String> = Vec::new();
        let mut si: usize = 0;
        assert(sl.take(0) =~= Seq::<Seq<char>>::empty());
        while si < slots.len()
            invariant
                0 <= si <= slots@.len(),
                sl == string_views(slots@),
                sel == variant_selections@,
                family@ == os.family(),
                string_views(paths@) == self.inactive_over(sl.take(si as int), os.family(), sel),
            decreases slots@.len() - si,
        {
            let slot = slots[si].as_str();
            let active = self.effective(slot, os, variant_selections);
            let vars = self.list_variants(slot);
            let ghost act = id_of(opt_ref(active));
            let ghost base = string_views(paths@);
            let mut vi: usize = 0;
            assert(refs(vars@).take(0) =~= Seq::<VariantManifest>::empty());
            while vi < vars.len()
                invariant
                    0 <= vi <= vars@.len(),
                    family@ == os.family(),
                    act == id_of(opt_ref(active)),
                    string_views(paths@) == base + slot_paths(refs(vars@).take(vi as int), os.family(), act),
                decreases vars@.len() - vi,
            {
                let v = vars[vi];
                let eligible = supports_family(v, family);
                let same = match active {
                    Some(a) => str_eq(v.id.as_str(), a.id.as_str()),
                    None => false,
                };
                proof {
                    let t = refs(vars@).take(vi + 1);
                    assert(t.drop_last() =~= refs(vars@).take(vi as int));
                    assert(t.last() == *v);
                }
                if eligible && !same {
                    extend_strings(&mut paths, &v.provides.dotfile_paths);
                }
                vi = vi + 1;
            }
            proof {
                assert(refs(vars@).take(vars@.len() as int) =~= refs(vars@));
                assert(sl.take(si + 1).drop_last() =~= sl.take(si as int));
                assert(sl.take(si + 1).last() == slot@);
            }
            si = si + 1;
        }
        proof {
            assert(sl.take(slots@.len() as int) =~= sl);
        }
        sort_dedup_paths(&paths)
    }
}

proof fn lemma_first_of_found(vs: Seq<VariantManifest>, keep: spec_fn(VariantManifest) -> bool)
    ensures
        first_of(vs, keep) is Some ==> exists|k: int|
            0 <= k < vs.len() && vs[k] == first_of(vs, keep)->0 && keep(vs[k]) && forall|j: int|
                0 <= j < k ==> !keep(#[trigger] vs[j]),
        first_of(vs, keep) is None ==> forall|j: int| 0 <= j < vs.len() ==> !keep(#[trigger] vs[j]),
    decreases vs.len(),
{
    if vs.len() > 0 {
        lemma_first_of_found(vs.drop_first(), keep);
        if !keep(vs[0]) && first_of(vs, keep) is Some {
            let k = choose|k: int|
                0 <= k < vs.drop_first().len() && vs.drop_first()[k] == first_of(vs, keep)->0 && keep(vs.drop_first()[k])
                    && forall|j: int| 0 <= j < k ==> !keep(#[trigger] vs.drop_first()[j]);
            assert(vs[k + 1] == vs.drop_first()[k]);
            assert forall|j: int| 0 <= j < k + 1 implies !keep(#[trigger] vs[j]) by {
                if j > 0 {
                    assert(vs[j] == vs.drop_first()[j - 1]);
                }
            }
        }
        if first_of(vs, keep) is None {
            assert forall|j: int| 0 <= j < vs.len() implies !keep(#[trigger] vs[j]) by {
                if j > 0 {
                    assert(vs[j] == vs.drop_first()[j - 1]);
                }
            }
        }
    }
}

/// The default variant of a slot is never experimental: when `default_of`
/// gives a variant, it is a loaded variant of that slot, marked `default`,
/// `Stable`, supporting the platform family, and no earlier loaded variant
/// is all of these; when it gives none, no loaded variant is. With no
/// selection, the effective variant is this default.
pub proof fn default_variant_law(resolver: VariantResolver, slot: Seq<char>, family: Seq<char>)
    ensures
        resolver.default_of(slot, family) is Some ==> exists|k: int|
            0 <= k < resolver.loaded().len() && #[trigger] resolver.loaded()[k] == resolver.default_of(slot, family)->0
                && resolver.loaded()[k].stability == Stability::Stable && resolver.loaded()[k].default
                && resolver.loaded()[k].slot@ == slot && supports(resolver.loaded()[k], family) && forall|j: int|
                0 <= j < k ==> !(resolver.loaded()[j].stability == Stability::Stable && resolver.loaded()[j].default
                    && resolver.loaded()[j].slot@ == slot && supports(#[trigger] resolver.loaded()[j], family)),
        resolver.default_of(slot, family) is None ==> forall|j: int|
            0 <= j < resolver.loaded().len() ==> !(resolver.loaded()[j].stability == Stability::Stable
                && resolver.loaded()[j].default && resolver.loaded()[j].slot@ == slot && supports(
                #[trigger] resolver.loaded()[j],
                family,
            )),
        resolver.effective_of(slot, family, Map::empty()) == resolver.default_of(slot, family),
{
    let keep = default_pick(slot, family);
    lemma_first_of_found(resolver.loaded(), keep);
    if resolver.default_of(slot, family) is Some {
        let k = choose|k: int|
            0 <= k < resolver.loaded().len() && resolver.loaded()[k] == first_of(resolver.loaded(), keep)->0 && keep(
                resolver.loaded()[k],
            ) && forall|j: int| 0 <= j < k ==> !keep(#[trigger] resolver.loaded()[j]);
        assert(keep(resolver.loaded()[k]));
        assert forall|j: int| 0 <= j < k implies !(resolver.loaded()[j].stability == Stability::Stable
            && resolver.loaded()[j].default && resolver.loaded()[j].slot@ == slot && supports(
            #[trigger] resolver.loaded()[j],
            family,
        )) by {
            assert(!keep(resolver.loaded()[j]));
        }
    } else {
        assert forall|j: int| 0 <= j < resolver.loaded().len() implies !(resolver.loaded()[j].stability
            == Stability::Stable && resolver.loaded()[j].default && resolver.loaded()[j].slot@ == slot && supports(
            #[trigger] resolver.loaded()[j],
            family,
        )) by {
            assert(!keep(resolver.loaded()[j]));
        }
    }
}

// ── Laws ────────────────────────────────────────────────────────────────────

/// The paths that chezmoi is told to ignore are strictly increasing and are
/// exactly those of the inactive variants: each one is a dotfile path of a
/// loaded variant that supports the platform family (no platforms, or the
/// family among them) and whose id is not that of its slot's effective
/// variant; and every dotfile path of such a variant is among them (equal
/// as a path).
pub proof fn inactive_paths_law(
    resolver: VariantResolver,
    family: Seq<char>,
    sel: Map<Seq<char>, String>,
    out: Seq<Seq<char>>,
)
    requires
        sorted_unique_paths(resolver.inactive_over(slot_order(resolver.loaded()), family, sel), out),
    ensures
        paths_sorted(out),
        forall|p: int| 0 <= p < out.len() ==> resolver.inactive_path(#[trigger] out[p], family, sel),
        forall|j: int, k: int|
            0 <= j < resolver.loaded().len() && supports(resolver.loaded()[j], family) && id_of(
                resolver.effective_of(resolver.loaded()[j].slot@, family, sel),
            ) != Some(resolver.loaded()[j].id@) && 0 <= k < resolver.loaded()[j].provides.dotfile_paths@.len()
                ==> covered(#[trigger] resolver.loaded()[j].provides.dotfile_paths@[k]@, out),
{
    let vs = resolver.loaded();
    let order = slot_order(vs);
    let raw = resolver.inactive_over(order, family, sel);
    lemma_slot_order(vs);
    resolver.lemma_inactive_over_members(order, family, sel);
    reveal(sort_progress);
    assert forall|p: int| 0 <= p < out.len() implies resolver.inactive_path(#[trigger] out[p], family, sel) by {
        assert(has_origin(raw, raw.len() as int, out[p]));
        let i = choose|i: int| 0 <= i < raw.len() && #[trigger] first_of_class(raw, i, out[p]);
        assert(raw[i] == out[p]);
        assert(raw.contains(out[p]));
        let (j, k) = choose|j: int, k: int|
            0 <= j < vs.len() && order.contains(vs[j].slot@) && resolver.inactive(vs[j], family, sel) && 0 <= k
                < vs[j].provides.dotfile_paths@.len() && #[trigger] vs[j].provides.dotfile_paths@[k]@ == out[p];
        assert(vs[j].provides.dotfile_paths@[k]@ == out[p]);
    }
    assert forall|j: int, k: int|
        0 <= j < vs.len() && resolver.inactive(vs[j], family, sel) && 0 <= k
            < vs[j].provides.dotfile_paths@.len() implies covered(#[trigger] vs[j].provides.dotfile_paths@[k]@, out) by {
        let x = vs[j].provides.dotfile_paths@[k]@;
        assert(slot_set(vs).contains(vs[j].slot@));
        assert(order.contains(vs[j].slot@));
        assert(raw.contains(x));
        let i = choose|i: int| 0 <= i < raw.len() && raw[i] == x;
        assert(covered(raw[i], out));
    }
}


// ── Workflow hooks ──────────────────────────────────────────────────────────

/// The post-apply hooks of the effective variant of each slot of `slots`,
/// in order (a slot without an effective variant adds nothing).
pub open spec fn variant_hooks_over(
    r: VariantResolver,
    slots: Seq<Seq<char>>,
    family: Seq<char>,
    sel: Map<Seq<char>, String>,
) -> Seq<Seq<char>>
    decreases slots.len(),
{
    if slots.len() == 0 {
        Seq::empty()
    } else {
        variant_hooks_over(r, slots.drop_last(), family, sel) + match r.effective_of(slots.last(), family, sel) {
            Some(v) => string_views(v.hooks.post_apply@),
            None => Seq::empty(),
        }
    }
}

/// Appends to the plan's post-apply hooks those of the effective variant of
/// each slot, slots in slot order; the other hooks are unchanged.
pub fn append_variant_hooks(hooks: &mut HookPlan, resolver: &VariantResolver, os: &TargetOs, selections: &StrMap<String>)
    ensures
        string_views(final(hooks).post_apply@) == string_views(old(hooks).post_apply@) + variant_hooks_over(
            *resolver,
            slot_order(resolver.loaded()),
            os.family(),
            selections@,
        ),
        final(hooks).post_install == old(hooks).post_install,
        final(hooks).post_update == old(hooks).post_update,
{
    let slots = resolver.list_slots();
    let ghost sv = string_views(slots@);
    let ghost start = string_views(hooks.post_apply@);
    let mut i: usize = 0;
    assert(sv.take(0) =~= Seq::<Seq<char>>::empty());
    assert(start + Seq::<Seq<char>>::empty() =~= start);
    while i < slots.len()
        invariant
            0 <= i <= slots@.len(),
            sv == string_views(slots@),
            sv == slot_order(resolver.loaded()),
            start == string_views(old(hooks).post_apply@),
            string_views(hooks.post_apply@) == start + variant_hooks_over(*resolver, sv.take(i as int), os.family(), selections@),
            hooks.post_install == old(hooks).post_install,
            hooks.post_update == old(hooks).post_update,
        decreases slots@.len() - i,
    {
        proof {
            assert(sv.take(i + 1).drop_last() =~= sv.take(i as int));
            assert(sv.take(i + 1).last() == slots@[i as int]@);
        }
        let ghost before = string_views(hooks.post_apply@);
        match resolver.effective(slots[i].as_str(), os, selections) {
            Some(v) => {
                extend_strings(&mut hooks.post_apply, &v.hooks.post_apply);
            },
            None => {},
        }
        proof {
            let prev = variant_hooks_over(*resolver, sv.take(i as int), os.family(), selections@);
            let add = match resolver.effective_of(slots@[i as int]@, os.family(), selections@) {
                Some(v) => string_views(v.hooks.post_apply@),
                None => Seq::<Seq<char>>::empty(),
            };
            assert(variant_hooks_over(*resolver, sv.take(i + 1), os.family(), selections@) == prev + add);
            assert(string_views(hooks.post_apply@) =~= start + (prev + add));
        }
        i = i + 1;
    }
    assert(sv.take(slots@.len() as int) =~= sv);
}

// ── Discovery ───────────────────────────────────────────────────────────────

/// What discovery found under one feature: whether its `variants`
/// directory exists, and each entry listed there with whether its
/// `variant.toml` exists.
pub type FeatureFinds = (bool, Vec<(String, bool)>);

pub open spec fn entry_view(e: (String, bool)) -> (Seq<char>, bool) {
    (e.0@, e.1)
}

pub open spec fn finds_view(f: FeatureFinds) -> (bool, Seq<(Seq<char>, bool)>) {
    (f.0, f.1@.map_values(|e: (String, bool)| entry_view(e)))
}

pub open spec fn pair_view(p: (String, String)) -> (Seq<char>, Seq<char>) {
    (p.0@, p.1@)
}

/// The (manifest, directory) pairs of the variant entries whose
/// `variant.toml` exists, in listing order.
pub open spec fn entry_pairs(entries: Seq<(Seq<char>, bool)>) -> Seq<(Seq<char>, Seq<char>)>
    decreases entries.len(),
{
    if entries.len() == 0 {
        Seq::empty()
    } else {
        let prev = entry_pairs(entries.drop_last());
        if entries.last().1 {
            prev.push((path_join(entries.last().0, "variant.toml"@), entries.last().0))
        } else {
            prev
        }
    }
}

/// The (manifest, directory) pairs of all features, in listing order; a
/// feature without a `variants` directory contributes nothing.
pub open spec fn manifest_pairs_of(found: Seq<(bool, Seq<(Seq<char>, bool)>)>) -> Seq<(Seq<char>, Seq<char>)>
    decreases found.len(),
{
    if found.len() == 0 {
        Seq::empty()
    } else {
        let prev = manifest_pairs_of(found.drop_last());
        if found.last().0 {
            prev + entry_pairs(found.last().1)
        } else {
            prev
        }
    }
}

/// The variant manifests from what the filesystem reported
/// (`manifest_pairs_of`).
pub fn manifest_pairs(found: &Vec<FeatureFinds>) -> (r: Vec<(String, String)>)
    ensures
        r@.map_values(|p: (String, String)| pair_view(p)) == manifest_pairs_of(
            found@.map_values(|f: FeatureFinds| finds_view(f)),
        ),
{
    let ghost fv = found@.map_values(|f: FeatureFinds| finds_view(f));
    let mut out: Vec<(String, String)> = Vec::new();
    let mut i: usize = 0;
    assert(fv.take(0) =~= Seq::<(bool, Seq<(Seq<char>, bool)>)>::empty());
    while i < found.len()
        invariant
            0 <= i <= found@.len(),
            fv == found@.map_values(|f: FeatureFinds| finds_view(f)),
            out@.map_values(|p: (String, String)| pair_view(p)) == manifest_pairs_of(fv.take(i as int)),
        decreases found@.len() - i,
    {
        let ghost base = out@.map_values(|p: (String, String)| pair_view(p));
        let entries = &found[i].1;
        let ghost ev = entries@.map_values(|e: (String, bool)| entry_view(e));
        proof {
            assert(fv.take(i + 1).drop_last() =~= fv.take(i as int));
            assert(fv.take(i + 1).last() == finds_view(found@[i as int]));
        }
        if found[i].0 {
            let mut j: usize = 0;
            assert(ev.take(0) =~= Seq::<(Seq<char>, bool)>::empty());
            assert(base + entry_pairs(ev.take(0)) =~= base);
            while j < entries.len()
                invariant
                    0 <= j <= entries@.len(),
                    ev == entries@.map_values(|e: (String, bool)| entry_view(e)),
                    out@.map_values(|p: (String, String)| pair_view(p)) == base + entry_pairs(ev.take(j as int)),
                decreases entries@.len() - j,
            {
                let ghost before = out@.map_values(|p: (String, String)| pair_view(p));
                proof {
                    assert(ev.take(j + 1).drop_last() =~= ev.take(j as int));
                    assert(ev.take(j + 1).last() == entry_view(entries@[j as int]));
                }
                if entries[j].1 {
                    let manifest = join_path_str(entries[j].0.as_str(), "variant.toml");
                    out.push((manifest, entries[j].0.clone()));
                    assert(out@.map_values(|p: (String, String)| pair_view(p)) =~= before.push(
                        (path_join(entries@[j as int].0@, "variant.toml"@), entries@[j as int].0@),
                    ));
                    assert(base + entry_pairs(ev.take(j + 1)) =~= (base + entry_pairs(ev.take(j as int))).push(
                        (path_join(entries@[j as int].0@, "variant.toml"@), entries@[j as int].0@),
                    ));
                }
                j = j + 1;
            }
            assert(ev.take(entries@.len() as int) =~= ev);
        } else {
        }
        i = i + 1;
    }
    assert(fv.take(found@.len() as int) =~= fv);
    out
}

/// The entries of a listing answer: its paths; none for a failed listing.
pub open spec fn listed(l: Result<Vec<String>, KaizenError>) -> Seq<Seq<char>> {
    match l {
        Ok(v) => string_views(v@),
        Err(_) => Seq::empty(),
    }
}

/// The entries `e` found in a `variants` directory listing `variants`:
/// each entry with the filesystem's answer to whether its `variant.toml`
/// exists.
pub open spec fn entries_found<F: FileSystem + ?Sized>(
    fs: &F,
    variants: Seq<Seq<char>>,
    e: Seq<(Seq<char>, bool)>,
) -> bool {
    &&& e.len() == variants.len()
    &&& forall|j: int|
        0 <= j < e.len() ==> (#[trigger] e[j]).0 == variants[j] && fs.answers_exists(
            path_join(variants[j], "variant.toml"@),
            e[j].1,
        )
}

/// What discovery finds under a feature directory `feature`: the
/// filesystem's answer to whether its `variants` directory exists, and when
/// it does, the entries of the listing it answers for that directory.
pub open spec fn feature_found<F: FileSystem + ?Sized>(
    fs: &F,
    feature: Seq<char>,
    f: (bool, Seq<(Seq<char>, bool)>),
) -> bool {
    &&& fs.answers_exists(path_join(feature, "variants"@), f.0)
    &&& !f.0 ==> f.1.len() == 0
    &&& f.0 ==> exists|l: Result<Vec<String>, KaizenError>|
        #[trigger] fs.answers_listing(path_join(feature, "variants"@), l) && entries_found(fs, listed(l), f.1)
}

/// What discovery finds under `features_dir`: nothing when the filesystem
/// answers that it does not exist; else, for each entry of the listing it
/// answers for it, what is found under that feature.
pub open spec fn tree_found<F: FileSystem + ?Sized>(
    fs: &F,
    features_dir: Seq<char>,
    found: Seq<(bool, Seq<(Seq<char>, bool)>)>,
) -> bool {
    exists|top: bool|
        #[trigger] fs.answers_exists(features_dir, top) && (!top ==> found.len() == 0) && (top ==> exists|
            l: Result<Vec<String>, KaizenError>,
        |
            #[trigger] fs.answers_listing(features_dir, l) && found.len() == listed(l).len() && forall|i: int|
                0 <= i < found.len() ==> #[trigger] feature_found(fs, listed(l)[i], found[i]))
}

/// The variant manifests under `features_dir`, found the way discovery
/// walks the tree (`tree_found`, then `manifest_pairs_of`): nothing when
/// `features_dir` does not exist; else, for each listed feature whose
/// `variants` directory exists, each listed entry there whose
/// `variant.toml` exists, in listing order. A listing that fails counts as
/// empty. Each pair is the manifest's path and the variant's directory.
pub fn variant_manifest_paths(features_dir: &str, fs: &dyn FileSystem) -> (r: Vec<(String, String)>)
    ensures
        forall|i: int| 0 <= i < r@.len() ==> (#[trigger] r@[i]).0@ == path_join(r@[i].1@, "variant.toml"@),
        exists|found: Seq<(bool, Seq<(Seq<char>, bool)>)>|
            #[trigger] tree_found(fs, features_dir@, found) && r@.map_values(|p: (String, String)| pair_view(p))
                == manifest_pairs_of(found),
{
    let mut found: Vec<FeatureFinds> = Vec::new();
    let top = fs.path_exists(features_dir);
    let ghost mut lres: Result<Vec<String>, KaizenError> = Err(KaizenError::HomeDirUnavailable);
    if top {
        let listing = fs.read_dir_paths(features_dir);
        proof {
            lres = listing;
        }
        let features = match listing {
            Ok(v) => v,
            Err(_) => Vec::new(),
        };
        assert(string_views(features@) =~= listed(lres));
        let mut i: usize = 0;
        while i < features.len()
            invariant
                0 <= i <= features@.len(),
                found@.len() == i,
                string_views(features@) == listed(lres),
                forall|k: int|
                    0 <= k < i ==> #[trigger] feature_found(fs, listed(lres)[k], finds_view(found@[k])),
            decreases features@.len() - i,
        {
            let variants_dir = join_path_str(features[i].as_str(), "variants");
            let mut entries: Vec<(String, bool)> = Vec::new();
            let present = fs.path_exists(variants_dir.as_str());
            let ghost mut vres: Result<Vec<String>, KaizenError> = Err(KaizenError::HomeDirUnavailable);
            if present {
                let vlisting = fs.read_dir_paths(variants_dir.as_str());
                proof {
                    vres = vlisting;
                }
                let variants = match vlisting {
                    Ok(v) => v,
                    Err(_) => Vec::new(),
                };
                assert(string_views(variants@) =~= listed(vres));
                let mut j: usize = 0;
                while j < variants.len()
                    invariant
                        0 <= j <= variants@.len(),
                        entries@.len() == j,
                        string_views(variants@) == listed(vres),
                        forall|q: int|
                            0 <= q < j ==> (#[trigger] entries@[q]).0@ == variants@[q]@ && fs.answers_exists(
                                path_join(variants@[q]@, "variant.toml"@),
                                entries@[q].1,
                            ),
                    decreases variants@.len() - j,
                {
                    let manifest = join_path_str(variants[j].as_str(), "variant.toml");
                    let exists = fs.path_exists(manifest.as_str());
                    entries.push((variants[j].clone(), exists));
                    j = j + 1;
                }
                proof {
                    let ev = entries@.map_values(|e: (String, bool)| entry_view(e));
                    assert forall|q: int| 0 <= q < ev.len() implies (#[trigger] ev[q]).0 == listed(vres)[q]
                        && fs.answers_exists(path_join(listed(vres)[q], "variant.toml"@), ev[q].1) by {
                        assert(string_views(variants@)[q] == variants@[q]@);
                    }
                    assert(entries_found(fs, listed(vres), ev));
                    assert(fs.answers_listing(path_join(features@[i as int]@, "variants"@), vres));
                }
            }
            found.push((present, entries));
            proof {
                assert(string_views(features@)[i as int] == features@[i as int]@);
                assert(feature_found(fs, listed(lres)[i as int], finds_view(found@[i as int])));
            }
            i = i + 1;
        }
    }
    let r = manifest_pairs(&found);
    proof {
        let fv = found@.map_values(|f: FeatureFinds| finds_view(f));
        lemma_manifest_pairs_shape(fv);
        assert forall|i: int| 0 <= i < r@.len() implies (#[trigger] r@[i]).0@ == path_join(r@[i].1@, "variant.toml"@) by {
            assert(r@.map_values(|p: (String, String)| pair_view(p))[i] == pair_view(r@[i]));
        }
        if top {
            assert forall|k: int| 0 <= k < fv.len() implies #[trigger] feature_found(fs, listed(lres)[k], fv[k]) by {
                assert(fv[k] == finds_view(found@[k]));
            }
            assert(fs.answers_listing(features_dir@, lres));
        }
        assert(tree_found(fs, features_dir@, fv));
    }
    r
}

proof fn lemma_entry_pairs_shape(entries: Seq<(Seq<char>, bool)>)
    ensures
        forall|i: int| 0 <= i < entry_pairs(entries).len() ==> (#[trigger] entry_pairs(entries)[i]).0 == path_join(
            entry_pairs(entries)[i].1,
            "variant.toml"@,
        ),
    decreases entries.len(),
{
    if entries.len() > 0 {
        let prev = entry_pairs(entries.drop_last());
        lemma_entry_pairs_shape(entries.drop_last());
        if entries.last().1 {
            let x = (path_join(entries.last().0, "variant.toml"@), entries.last().0);
            assert forall|i: int| 0 <= i < prev.push(x).len() implies (#[trigger] prev.push(x)[i]).0 == path_join(
                prev.push(x)[i].1,
                "variant.toml"@,
            ) by {
                if i < prev.len() {
                    assert(prev.push(x)[i] == prev[i]);
                }
            }
        }
    }
}

proof fn lemma_manifest_pairs_shape(found: Seq<(bool, Seq<(Seq<char>, bool)>)>)
    ensures
        forall|i: int| 0 <= i < manifest_pairs_of(found).len() ==> (#[trigger] manifest_pairs_of(found)[i]).0 == path_join(
            manifest_pairs_of(found)[i].1,
            "variant.toml"@,
        ),
    decreases found.len(),
{
    if found.len() > 0 {
        lemma_manifest_pairs_shape(found.drop_last());
        lemma_entry_pairs_shape(found.last().1);
        let prev = manifest_pairs_of(found.drop_last());
        let e = entry_pairs(found.last().1);
        if found.last().0 {
            assert forall|i: int| 0 <= i < (prev + e).len() implies (#[trigger] (prev + e)[i]).0 == path_join(
                (prev + e)[i].1,
                "variant.toml"@,
            ) by {
                if i < prev.len() {
                    assert((prev + e)[i] == prev[i]);
                } else {
                    assert((prev + e)[i] == e[i - prev.len()]);
                }
            }
        }
    }
}

} // verus!
