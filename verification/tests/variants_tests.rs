use kaizen_core::os::TargetOs;
use kaizen_core::strmap::StrMap;
use kaizen_core::variants::{
    Stability, VariantHooks, VariantManifest, VariantProvides, VariantRequires, VariantResolver,
};

fn make_variant(id: &str, slot: &str, stability: Stability, platform: &str, default: bool) -> VariantManifest {
    VariantManifest {
        id: id.to_owned(),
        slot: slot.to_owned(),
        title: None,
        stability,
        platforms: vec![platform.to_owned()],
        default,
        provides: VariantProvides {
            nix_modules: vec![],
            dotfile_paths: vec![format!("dot_config/{id}/")],
        },
        requires: VariantRequires::default(),
        hooks: VariantHooks::default(),
        dir: String::new(),
    }
}

fn resolver_with_tiling() -> VariantResolver {
    VariantResolver::new(vec![
        make_variant("yabai", "tiling.wm", Stability::Stable, "darwin", true),
        make_variant("aerospace", "tiling.wm", Stability::Experimental, "darwin", false),
        make_variant("komorebi", "tiling.wm", Stability::Experimental, "linux", false),
    ])
}

fn selection(slot: &str, id: &str) -> StrMap<String> {
    let mut sel = StrMap::new();
    sel.insert(slot.to_owned(), id.to_owned());
    sel
}

/// `a` and `b` name the same path (`PathBuf` equality).
fn same_path(a: &str, b: &str) -> bool {
    std::path::Path::new(a) == std::path::Path::new(b)
}

#[test]
fn list_slots_returns_distinct_sorted() {
    let r = resolver_with_tiling();
    assert_eq!(r.list_slots(), vec!["tiling.wm"]);
}

#[test]
fn list_slots_sorts_and_dedups_many_slots() {
    let r = VariantResolver::new(vec![
        make_variant("a", "z.slot", Stability::Stable, "linux", false),
        make_variant("b", "a.slot", Stability::Stable, "linux", false),
        make_variant("c", "z.slot", Stability::Stable, "linux", false),
        make_variant("d", "m.slot", Stability::Stable, "linux", false),
    ]);
    assert_eq!(r.list_slots(), vec!["a.slot", "m.slot", "z.slot"]);
}

#[test]
fn list_variants_for_slot() {
    let r = resolver_with_tiling();
    let ids: Vec<_> = r.list_variants("tiling.wm").iter().map(|v| v.id.as_str()).collect();
    assert!(ids.contains(&"yabai"));
    assert!(ids.contains(&"aerospace"));
}

#[test]
fn filter_by_os_excludes_wrong_platform() {
    let r = resolver_with_tiling();
    let all = r.list_variants("tiling.wm");
    let darwin = r.filter_by_os(&TargetOs::Darwin, all);
    let ids: Vec<_> = darwin.iter().map(|v| v.id.as_str()).collect();
    assert!(ids.contains(&"yabai"));
    assert!(ids.contains(&"aerospace"));
    assert!(!ids.contains(&"komorebi"));
}

#[test]
fn filter_by_os_keeps_variants_without_platforms() {
    let mut v = make_variant("any", "s", Stability::Stable, "linux", false);
    v.platforms.clear();
    let r = VariantResolver::new(vec![v]);
    let kept = r.filter_by_os(&TargetOs::Unknown("haiku".into()), r.list_variants("s"));
    assert_eq!(kept.len(), 1);
}

#[test]
fn filter_by_stability_excludes_experimental() {
    let r = resolver_with_tiling();
    let all = r.list_variants("tiling.wm");
    let stable = r.filter_by_stability(false, all);
    assert_eq!(stable.len(), 1);
    assert_eq!(stable[0].id, "yabai");
}

#[test]
fn filter_by_stability_allows_experimental_when_asked() {
    let r = resolver_with_tiling();
    assert_eq!(r.filter_by_stability(true, r.list_variants("tiling.wm")).len(), 3);
}

#[test]
fn default_for_returns_stable_default_for_os() {
    let r = resolver_with_tiling();
    let d = r.default_for("tiling.wm", &TargetOs::Darwin).unwrap();
    assert_eq!(d.id, "yabai");
}

#[test]
fn default_for_returns_none_for_wrong_os() {
    let r = VariantResolver::new(vec![make_variant("yabai", "tiling.wm", Stability::Stable, "darwin", true)]);
    assert!(r.default_for("tiling.wm", &TargetOs::Fedora).is_none());
}

#[test]
fn resolve_active_reads_from_selections() {
    let r = resolver_with_tiling();
    let sel = selection("tiling.wm", "aerospace");
    let active = r.resolve_active("tiling.wm", &sel).unwrap();
    assert_eq!(active.id, "aerospace");
}

#[test]
fn resolve_active_ignores_unknown_selection() {
    let r = resolver_with_tiling();
    assert!(r.resolve_active("tiling.wm", &selection("tiling.wm", "nope")).is_none());
    assert!(r.resolve_active("tiling.wm", &StrMap::new()).is_none());
}

#[test]
fn effective_falls_back_to_default_when_no_selection() {
    let r = resolver_with_tiling();
    let active = r.effective("tiling.wm", &TargetOs::Darwin, &StrMap::new()).unwrap();
    assert_eq!(active.id, "yabai");
}

#[test]
fn effective_prefers_selection_over_default() {
    let r = resolver_with_tiling();
    let active = r.effective("tiling.wm", &TargetOs::Darwin, &selection("tiling.wm", "komorebi")).unwrap();
    assert_eq!(active.id, "komorebi");
    assert!(r.effective("tiling.wm", &TargetOs::Fedora, &StrMap::new()).is_none());
}

#[test]
fn inactive_dotfile_paths_excludes_active_variant() {
    let r = resolver_with_tiling();
    let sel = selection("tiling.wm", "aerospace");
    let inactive = r.inactive_dotfile_paths(&TargetOs::Darwin, &sel);
    assert!(inactive.iter().any(|p| same_path(p, "dot_config/yabai/")));
    assert!(!inactive.iter().any(|p| same_path(p, "dot_config/aerospace/")));
}

#[test]
fn inactive_dotfile_paths_uses_default_when_no_selection() {
    let r = resolver_with_tiling();
    let inactive = r.inactive_dotfile_paths(&TargetOs::Darwin, &StrMap::new());
    assert!(!inactive.iter().any(|p| same_path(p, "dot_config/yabai/")));
    assert!(inactive.iter().any(|p| same_path(p, "dot_config/aerospace/")));
}

#[test]
fn inactive_dotfile_paths_are_sorted_and_deduplicated() {
    let mut a = make_variant("a", "s", Stability::Stable, "linux", false);
    a.provides.dotfile_paths = vec!["z/".into(), "b".into(), "./z".into()];
    let mut b = make_variant("b", "s", Stability::Stable, "linux", true);
    b.provides.dotfile_paths = vec!["kept-out".into()];
    let mut c = make_variant("c", "t", Stability::Stable, "linux", false);
    c.provides.dotfile_paths = vec!["b/".into(), "a//x".into()];
    let r = VariantResolver::new(vec![a, b, c]);
    let out = r.inactive_dotfile_paths(&TargetOs::Linux, &StrMap::new());
    assert_eq!(out, vec!["./z".to_string(), "a//x".into(), "b".into(), "z/".into()]);
}

#[test]
fn stability_names() {
    assert_eq!(Stability::Stable.as_str(), "stable");
    assert_eq!(Stability::Experimental.as_str(), "experimental");
}
