use kaizen_core::os::TargetOs;
use kaizen_core::strmap::StrMap;
use kaizen_core::variants::{Stability, VariantHooks, VariantManifest, VariantProvides, VariantRequires, VariantResolver};
use kaizen_core::wizard::{
    feature_of_slot_name, sort_variant_choices, wizard_features, wizard_slot, wizard_slots_by_feature,
    VariantChoice,
};

fn variant(id: &str, slot: &str, stability: Stability, platform: &str, default: bool, title: Option<&str>) -> VariantManifest {
    VariantManifest {
        id: id.into(),
        slot: slot.into(),
        title: title.map(|t| t.to_string()),
        stability,
        platforms: vec![platform.into()],
        default,
        provides: VariantProvides::default(),
        requires: VariantRequires::default(),
        hooks: VariantHooks::default(),
        dir: String::new(),
    }
}

fn tiling() -> VariantResolver {
    VariantResolver::new(vec![
        variant("yabai", "tiling.wm", Stability::Stable, "darwin", true, Some("Yabai")),
        variant("aerospace", "tiling.wm", Stability::Experimental, "darwin", false, None),
        variant("komorebi", "tiling.wm", Stability::Experimental, "linux", false, None),
        variant("amethyst", "tiling.wm", Stability::Stable, "darwin", false, None),
    ])
}

fn choice(id: &str, stability: Stability) -> VariantChoice {
    VariantChoice { id: id.into(), title: id.into(), stability, is_default: false }
}

#[test]
fn choices_sort_stable_first_then_by_id() {
    let sorted = sort_variant_choices(&vec![
        choice("b", Stability::Experimental),
        choice("z", Stability::Stable),
        choice("a", Stability::Experimental),
        choice("c", Stability::Stable),
    ]);
    let ids: Vec<_> = sorted.iter().map(|c| c.id.as_str()).collect();
    assert_eq!(ids, vec!["c", "z", "a", "b"]);
}

#[test]
fn wizard_slot_lists_os_variants_and_default_selection() {
    let r = tiling();
    let w = wizard_slot(&r, "tiling.wm", &TargetOs::Darwin, &StrMap::new()).unwrap();
    let ids: Vec<_> = w.choices.iter().map(|c| c.id.as_str()).collect();
    assert_eq!(ids, vec!["amethyst", "yabai", "aerospace"]);
    assert_eq!(w.choices[1].title, "Yabai");
    assert_eq!(w.choices[0].title, "amethyst");
    assert_eq!(w.selected_id.as_deref(), Some("yabai"));
    assert!(wizard_slot(&r, "tiling.wm", &TargetOs::Unknown("x".into()), &StrMap::new()).is_none());
}

#[test]
fn wizard_slot_prefers_explicit_selection() {
    let r = tiling();
    let mut sel = StrMap::new();
    sel.insert("tiling.wm".to_string(), "komorebi".to_string());
    let w = wizard_slot(&r, "tiling.wm", &TargetOs::Linux, &sel).unwrap();
    assert_eq!(w.selected_id.as_deref(), Some("komorebi"));
    assert_eq!(w.choices.len(), 1);
}

#[test]
fn slots_are_indexed_by_feature() {
    assert_eq!(feature_of_slot_name("tiling.wm"), "tiling");
    assert_eq!(feature_of_slot_name("plain"), "plain");
    let r = tiling();
    let m = wizard_slots_by_feature(&r, &TargetOs::Darwin, &StrMap::new());
    assert!(m.contains_key("tiling"));
    assert_eq!(m.get("tiling").unwrap().slot_fqn, "tiling.wm");
}

#[test]
fn wizard_features_no_experimental_all_slots_none() {
    let r = tiling();
    let slots = wizard_slots_by_feature(&r, &TargetOs::Darwin, &StrMap::new());
    let meta = vec![("tiling".to_string(), Some("Tiling WM".to_string())), ("git".to_string(), None)];
    let mut enabled = StrMap::new();
    enabled.insert("git".to_string(), false);
    let features = wizard_features(&meta, &enabled, false, &slots);
    assert_eq!(features.len(), 2);
    assert!(features.iter().all(|f| f.slot.is_none()));
    assert!(features[0].enabled);
    assert_eq!(features[0].description, "Tiling WM");
    assert!(!features[1].enabled);
    assert_eq!(features[1].description, "");
}

#[test]
fn wizard_features_with_experimental_tiling_gets_slot() {
    let r = tiling();
    let slots = wizard_slots_by_feature(&r, &TargetOs::Darwin, &StrMap::new());
    let meta = vec![("tiling".to_string(), None), ("git".to_string(), None)];
    let features = wizard_features(&meta, &StrMap::new(), true, &slots);
    assert!(features[0].slot.is_some());
    assert!(features[1].slot.is_none());
}

#[test]
fn wizard_features_platform_filter_linux_absent_on_darwin() {
    let r = VariantResolver::new(vec![variant("k", "wm.tiling", Stability::Stable, "linux", true, None)]);
    let slots = wizard_slots_by_feature(&r, &TargetOs::Darwin, &StrMap::new());
    let features = wizard_features(&vec![("wm".to_string(), None)], &StrMap::new(), true, &slots);
    assert!(features[0].slot.is_none());
}

#[test]
fn wizard_features_no_variants_dir_all_slots_none() {
    let meta = vec![("core".to_string(), Some("Core".to_string()))];
    let features = wizard_features(&meta, &StrMap::new(), true, &StrMap::new());
    assert_eq!(features.len(), 1);
    assert!(features[0].slot.is_none(), "no variants_dir → slot = None");
}
