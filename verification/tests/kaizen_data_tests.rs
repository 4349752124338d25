use indexmap::IndexMap;
use kaizen_core::config::{ExtraConfig, UserSettings};
use kaizen_core::kaizen_data::{
    generate_kaizen_data_doc, generate_kaizen_data_text, merge_kaizen_data, merge_kaizen_data_text, parse_data_doc,
    variant_selections_text, write_variant_selections_doc, DataDoc, DataLeaf, DataValue,
    KaizenData,
};
use kaizen_core::plan::ConfigPlan;
use kaizen_core::strmap::StrMap;

fn make_plan(features: &[(&str, bool)], layout: Option<&str>) -> ConfigPlan {
    let mut flags = IndexMap::new();
    for (k, v) in features {
        flags.insert(k.to_string(), *v);
    }
    ConfigPlan {
        backend: "chezmoi".into(),
        dotfiles_source: None,
        features_data: flags,
        settings: UserSettings { layout: layout.map(str::to_owned) },
        extra: ExtraConfig::default(),
        variants: StrMap::new(),
    }
}

fn text(doc: &DataDoc, key: &str) -> Option<String> {
    match doc.entries.get(key) {
        Some(DataValue::Leaf(DataLeaf::Text(s))) => Some(s.clone()),
        _ => None,
    }
}

fn table_flag(doc: &DataDoc, table: &str, key: &str) -> Option<bool> {
    match doc.entries.get(table) {
        Some(DataValue::Table(t)) => match t.get(key) {
            Some(DataLeaf::Flag(b)) => Some(*b),
            _ => None,
        },
        _ => None,
    }
}

fn table_text(doc: &DataDoc, table: &str, key: &str) -> Option<String> {
    match doc.entries.get(table) {
        Some(DataValue::Table(t)) => match t.get(key) {
            Some(DataLeaf::Text(s)) => Some(s.clone()),
            _ => None,
        },
        _ => None,
    }
}

fn existing() -> DataDoc {
    let mut entries = StrMap::new();
    entries.insert("username".into(), DataValue::Leaf(DataLeaf::Text("alice".into())));
    entries.insert("layout".into(), DataValue::Leaf(DataLeaf::Text("colemak".into())));
    let mut features = StrMap::new();
    features.insert("core".into(), DataLeaf::Flag(true));
    features.insert("vcs".into(), DataLeaf::Flag(true));
    entries.insert("features".into(), DataValue::Table(features));
    let mut variants = StrMap::new();
    variants.insert("tiling.wm".into(), DataLeaf::Text("yabai".into()));
    entries.insert("variants".into(), DataValue::Table(variants));
    let mut extra = StrMap::new();
    extra.insert("brew_casks".into(), DataLeaf::Texts(vec!["zed".into()]));
    entries.insert("extra".into(), DataValue::Table(extra));
    DataDoc { entries }
}

#[test]
fn merge_removes_extra_when_empty_and_keeps_variants() {
    let merged = merge_kaizen_data(Some(existing()), &make_plan(&[], Some("qwerty")));
    assert!(!merged.entries.contains_key("extra"));
    assert_eq!(table_text(&merged, "variants", "tiling.wm").as_deref(), Some("yabai"));
}

#[test]
fn merge_overlays_variants_and_writes_extra() {
    let mut plan = make_plan(&[], Some("qwerty"));
    plan.variants.insert("tiling.wm".into(), "aerospace".into());
    plan.variants.insert("bar.status".into(), "sketchybar".into());
    plan.extra = ExtraConfig { nix_packages: vec!["ripgrep".into()], ..Default::default() };
    let merged = merge_kaizen_data(Some(existing()), &plan);
    assert_eq!(table_text(&merged, "variants", "tiling.wm").as_deref(), Some("aerospace"));
    assert_eq!(table_text(&merged, "variants", "bar.status").as_deref(), Some("sketchybar"));
    match merged.entries.get("extra") {
        Some(DataValue::Table(t)) => match t.get("nix_packages") {
            Some(DataLeaf::Texts(v)) => assert_eq!(v, &vec!["ripgrep".to_string()]),
            _ => panic!("nix_packages must be a list"),
        },
        _ => panic!("extra must be a table"),
    }
}

#[test]
fn merge_without_variants_drops_the_table() {
    let merged = merge_kaizen_data(None, &make_plan(&[("core", true)], None));
    assert!(!merged.entries.contains_key("variants"));
    let generated = generate_kaizen_data_doc(&make_plan(&[("core", true)], None));
    assert_eq!(merged.entries.len(), generated.entries.len());
}

#[test]
fn kaizen_data_to_plan() {
    let mut features = StrMap::new();
    features.insert("b".into(), false);
    features.insert("a".into(), true);
    let data = KaizenData { layout: "dvorak".into(), features, variants: StrMap::new(), extra: ExtraConfig::default() };
    let plan = data.to_plan();
    assert_eq!(plan.backend, "chezmoi");
    assert!(plan.dotfiles_source.is_none());
    let keys: Vec<_> = plan.features_data.keys().cloned().collect();
    assert_eq!(keys, vec!["a".to_string(), "b".into()]);
    assert_eq!(plan.settings.layout.as_deref(), Some("dvorak"));
}

fn doc_of(pairs: Vec<(&str, DataValue)>) -> DataDoc {
    let mut entries = StrMap::new();
    for (k, v) in pairs {
        entries.insert(k.to_string(), v);
    }
    DataDoc { entries }
}

fn leaf_text(s: &str) -> DataValue {
    DataValue::Leaf(DataLeaf::Text(s.into()))
}

fn table_of(pairs: Vec<(&str, DataLeaf)>) -> DataValue {
    let mut t = StrMap::new();
    for (k, v) in pairs {
        t.insert(k.to_string(), v);
    }
    DataValue::Table(t)
}

fn table_texts(doc: &DataDoc, table: &str, key: &str) -> Option<Vec<String>> {
    match doc.entries.get(table) {
        Some(DataValue::Table(t)) => match t.get(key) {
            Some(DataLeaf::Texts(v)) => Some(v.clone()),
            _ => None,
        },
        _ => None,
    }
}

#[test]
fn merge_writes_extra_section_to_data_toml() {
    let mut plan = make_plan(&[("core", true)], Some("qwerty"));
    plan.extra =
        ExtraConfig { brew_casks: vec!["zed".into()], nix_packages: vec!["ripgrep".into()], ..Default::default() };
    let merged = merge_kaizen_data(None, &plan);
    assert_eq!(table_texts(&merged, "extra", "brew_casks").unwrap()[0], "zed");
    assert_eq!(table_texts(&merged, "extra", "nix_packages").unwrap()[0], "ripgrep");
}

#[test]
fn merge_removes_extra_when_empty() {
    let existing = doc_of(vec![
        ("layout", leaf_text("qwerty")),
        ("extra", table_of(vec![("brew_casks", DataLeaf::Texts(vec!["zed".into()]))])),
    ]);
    let merged = merge_kaizen_data(Some(existing), &make_plan(&[], Some("qwerty")));
    assert!(merged.entries.get("extra").is_none(), "empty extra should not appear in data.toml");
}

#[test]
fn merge_writes_variants_section_to_data_toml() {
    let mut plan = make_plan(&[], Some("qwerty"));
    plan.variants.insert("tiling.wm".to_owned(), "aerospace".to_owned());
    let merged = merge_kaizen_data(None, &plan);
    assert_eq!(table_text(&merged, "variants", "tiling.wm").as_deref(), Some("aerospace"));
}

#[test]
fn merge_preserves_existing_variant_keys_not_in_plan() {
    let existing = doc_of(vec![
        ("layout", leaf_text("qwerty")),
        ("variants", table_of(vec![("other.slot", DataLeaf::Text("foo".into()))])),
    ]);
    let merged = merge_kaizen_data(Some(existing), &make_plan(&[], Some("qwerty")));
    assert_eq!(table_text(&merged, "variants", "other.slot").as_deref(), Some("foo"));
}

#[test]
fn merge_preserves_existing_variants_when_plan_empty() {
    let existing = doc_of(vec![
        ("layout", leaf_text("qwerty")),
        ("variants", table_of(vec![("tiling.wm", DataLeaf::Text("yabai".into()))])),
    ]);
    let merged = merge_kaizen_data(Some(existing), &make_plan(&[], Some("qwerty")));
    assert!(merged.entries.get("variants").is_some());
}

fn selections(pairs: &[(&str, &str)]) -> StrMap<String> {
    let mut m = StrMap::new();
    for (k, v) in pairs {
        m.insert(k.to_string(), v.to_string());
    }
    m
}

#[test]
fn engine_apply_and_read_variant_selections() {
    let existing = doc_of(vec![("layout", leaf_text("qwerty"))]);
    let doc = write_variant_selections_doc(Some(existing), &selections(&[("tiling.wm", "aerospace")]));
    assert_eq!(table_text(&doc, "variants", "tiling.wm").as_deref(), Some("aerospace"));
    match doc.entries.get("variants") {
        Some(DataValue::Table(t)) => assert_eq!(t.len(), 1),
        _ => panic!("variants must be a table"),
    }
}

#[test]
fn engine_apply_variant_selections_preserves_other_keys() {
    let existing = doc_of(vec![("layout", leaf_text("colemak")), ("username", leaf_text("alice"))]);
    let doc = write_variant_selections_doc(Some(existing), &selections(&[("tiling.wm", "yabai")]));
    assert_eq!(text(&doc, "layout").as_deref(), Some("colemak"), "layout preserved");
    assert_eq!(text(&doc, "username").as_deref(), Some("alice"), "username preserved");
    assert_eq!(table_text(&doc, "variants", "tiling.wm").as_deref(), Some("yabai"), "variant written");
}

#[test]
fn engine_apply_variant_selections_replaces_existing_variants() {
    let existing = doc_of(vec![
        ("layout", leaf_text("qwerty")),
        ("variants", table_of(vec![("tiling.wm", DataLeaf::Text("aerospace".into()))])),
    ]);
    let doc = write_variant_selections_doc(Some(existing), &StrMap::new());
    assert!(table_text(&doc, "variants", "tiling.wm").is_none(), "old selection should be removed");
    assert!(doc.entries.get("variants").is_none(), "empty variants section removed");
}

#[test]
fn generates_features_and_layout() {
    let plan = make_plan(&[("core", true), ("emacs", false)], Some("colemak"));
    let toml = generate_kaizen_data_text(&plan).unwrap();
    assert!(toml.contains("core = true"));
    assert!(toml.contains("emacs = false"));
    assert!(toml.contains("layout = \"colemak\""));
}

#[test]
fn defaults_layout_to_qwerty_when_unset() {
    let plan = make_plan(&[], None);
    let toml = generate_kaizen_data_text(&plan).unwrap();
    assert!(toml.contains("layout = \"qwerty\""));
}

#[test]
fn empty_features_produces_valid_toml() {
    let plan = make_plan(&[], Some("colemak"));
    let toml = generate_kaizen_data_text(&plan).unwrap();
    let _: toml::Value = toml::from_str(&toml).expect("must be valid toml");
}

#[test]
fn generate_includes_extra_when_non_empty() {
    let mut plan = make_plan(&[("core", true)], Some("qwerty"));
    plan.extra = ExtraConfig { brew_casks: vec!["zed".into()], ..Default::default() };
    let toml = generate_kaizen_data_text(&plan).unwrap();
    let val: toml::Value = toml::from_str(&toml).unwrap();
    assert_eq!(val["extra"]["brew_casks"].as_array().unwrap()[0].as_str().unwrap(), "zed");
}

#[test]
fn generate_omits_extra_when_empty() {
    let plan = make_plan(&[], Some("qwerty"));
    let toml = generate_kaizen_data_text(&plan).unwrap();
    let val: toml::Value = toml::from_str(&toml).unwrap();
    assert!(val.get("extra").is_none());
}

#[test]
fn merge_preserves_unknown_keys() {
    let existing =
        "username = \"alice\"\nhostname = \"macbook\"\n\n[models]\ndefault = \"gpt-4\"\n\n[features]\ncore = true\n";
    let plan = make_plan(&[("frontend", true)], Some("qwerty"));
    let merged = merge_kaizen_data_text(Some(existing), &plan).unwrap();
    assert!(merged.contains("username = \"alice\""));
    assert!(merged.contains("hostname = \"macbook\""));
    assert!(merged.contains("default = \"gpt-4\""));
    assert!(merged.contains("frontend = true"));
    assert!(merged.contains("layout = \"qwerty\""));
}

#[test]
fn merge_preserves_unknown_feature_keys() {
    let existing = "layout = \"colemak\"\n\n[features]\ncore = true\nvcs = true\n";
    let plan = make_plan(&[("core", true), ("frontend", false)], Some("colemak"));
    let merged = merge_kaizen_data_text(Some(existing), &plan).unwrap();
    assert!(merged.contains("vcs = true"), "vcs must be preserved: {merged}");
    assert!(merged.contains("frontend = false"));
}

#[test]
fn merge_updates_layout_without_touching_rest() {
    let existing = "layout = \"colemak\"\nusername = \"bob\"\n\n[features]\ncore = true\n";
    let plan = make_plan(&[("core", true)], Some("qwerty"));
    let merged = merge_kaizen_data_text(Some(existing), &plan).unwrap();
    assert!(merged.contains("layout = \"qwerty\""));
    assert!(merged.contains("username = \"bob\""));
}

#[test]
fn merge_on_nonexistent_file_equals_generate() {
    let plan = make_plan(&[("core", true)], Some("colemak"));
    let merged = merge_kaizen_data_text(None, &plan).unwrap();
    let generated = generate_kaizen_data_text(&plan).unwrap();
    let merged_val: toml::Value = toml::from_str(&merged).unwrap();
    let gen_val: toml::Value = toml::from_str(&generated).unwrap();
    assert_eq!(merged_val, gen_val);
}

#[test]
fn merge_on_nonexistent_file_equals_generate_with_variants() {
    let mut plan = make_plan(&[("core", true)], Some("colemak"));
    plan.variants.insert("tiling.wm".into(), "yabai".into());
    let merged: toml::Value = toml::from_str(&merge_kaizen_data_text(None, &plan).unwrap()).unwrap();
    let generated: toml::Value = toml::from_str(&generate_kaizen_data_text(&plan).unwrap()).unwrap();
    assert_eq!(merged, generated);
    assert_eq!(generated["variants"]["tiling.wm"].as_str(), Some("yabai"));
}

#[test]
fn parse_reads_leaves_tables_and_raw_values() {
    let doc = parse_data_doc("layout = \"dvorak\"\ncount = 3\n[features]\ncore = true\n[extra]\nbrew_casks = [\"zed\"]\nmixed = [1, \"a\"]\n");
    assert_eq!(text(&doc, "layout").as_deref(), Some("dvorak"));
    assert_eq!(table_flag(&doc, "features", "core"), Some(true));
    assert_eq!(table_texts(&doc, "extra", "brew_casks"), Some(vec!["zed".to_string()]));
    assert!(matches!(doc.entries.get("count"), Some(DataValue::Leaf(DataLeaf::Raw(_)))));
    assert!(parse_data_doc("not = = toml").entries.entries().is_empty());
}

#[test]
fn merge_keeps_numbers_and_replaces_broken_text() {
    let plan = make_plan(&[("core", true)], None);
    let merged: toml::Value = toml::from_str(&merge_kaizen_data_text(Some("count = 3\n"), &plan).unwrap()).unwrap();
    assert_eq!(merged["count"].as_integer(), Some(3));
    let fresh: toml::Value = toml::from_str(&merge_kaizen_data_text(Some("[[["), &plan).unwrap()).unwrap();
    assert_eq!(fresh, toml::from_str::<toml::Value>(&generate_kaizen_data_text(&plan).unwrap()).unwrap());
}

#[test]
fn variant_selections_text_replaces_the_block() {
    let out = variant_selections_text(Some("user = \"x\"\n[variants]\nold = \"a\"\n"), &selections(&[("tiling.wm", "yabai")])).unwrap();
    let val: toml::Value = toml::from_str(&out).unwrap();
    assert_eq!(val["user"].as_str(), Some("x"));
    assert_eq!(val["variants"]["tiling.wm"].as_str(), Some("yabai"));
    assert!(val["variants"].get("old").is_none());
}
