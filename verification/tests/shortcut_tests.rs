use kaizen_core::shortcut_catalog::{KeymapDoc, ShortcutCatalog, ShortcutValue};

fn doc(base: Vec<(&str, ShortcutValue)>, layouts: Vec<(&str, Vec<(&str, ShortcutValue)>)>) -> KeymapDoc {
    KeymapDoc {
        shortcuts: base.into_iter().map(|(k, v)| (k.to_string(), v)).collect(),
        layouts: layouts
            .into_iter()
            .map(|(n, t)| (n.to_string(), t.into_iter().map(|(k, v)| (k.to_string(), v)).collect()))
            .collect(),
    }
}

#[test]
fn entries_without_keys_are_skipped_and_non_strings_dropped() {
    let d = doc(
        vec![
            ("a", ShortcutValue::Other),
            ("b", ShortcutValue::Entry { keys: None, group: None, description: None }),
            ("c", ShortcutValue::Keys(vec![Some("x".into()), None, Some("y".into())])),
        ],
        vec![],
    );
    let catalog = ShortcutCatalog::from_doc(&d, None);
    assert_eq!(catalog.shortcuts.len(), 1);
    assert_eq!(catalog.shortcuts[0].keys, vec!["x", "y"]);
}


#[test]
fn load_base_array_format() {
    let catalog = ShortcutCatalog::from_text(
        r#"
[shortcuts]
"vcs.ui" = ["g", "g"]
"nav.down" = ["j"]
"#,
        None,
    )
    .unwrap();
    assert_eq!(catalog.shortcuts.len(), 2);
    let vcs = catalog.shortcuts.iter().find(|s| s.id == "vcs.ui").unwrap();
    assert_eq!(vcs.keys, vec!["g", "g"]);
}

#[test]
fn load_object_format_extracts_keys_and_metadata() {
    let catalog = ShortcutCatalog::from_text(
        r#"
[shortcuts]
"nav.down" = { keys = ["j"], group = "Navigation", description = "Move focus down" }
"#,
        None,
    )
    .unwrap();
    let def = &catalog.shortcuts[0];
    assert_eq!(def.keys, vec!["j"]);
    assert_eq!(def.group.as_deref(), Some("Navigation"));
    assert_eq!(def.description.as_deref(), Some("Move focus down"));
}

#[test]
fn overlay_replaces_keys_keeps_description() {
    let catalog = ShortcutCatalog::from_text(
        r#"
[shortcuts]
"nav.down" = { keys = ["j"], group = "Navigation", description = "Move focus down" }

[layout.colemak.shortcuts]
"nav.down" = ["n"]
"#,
        Some("colemak"),
    )
    .unwrap();
    let def = catalog.shortcuts.iter().find(|s| s.id == "nav.down").unwrap();
    assert_eq!(def.keys, vec!["n"], "overlay applied");
    assert_eq!(def.description.as_deref(), Some("Move focus down"), "description preserved from base");
}

#[test]
fn filter_by_prefix() {
    let catalog = ShortcutCatalog::from_text(
        r#"
[shortcuts]
"nav.down" = ["j"]
"nav.up"   = ["k"]
"vcs.ui"   = ["g", "g"]
"#,
        None,
    )
    .unwrap();
    let prefixes = vec!["nav".to_string()];
    let nav = catalog.by_prefix(&prefixes);
    assert_eq!(nav.len(), 2, "only nav.* returned");
    assert!(nav.iter().all(|s| s.id.starts_with("nav")));
    let all = catalog.by_prefix(&[]);
    assert_eq!(all.len(), 3, "empty prefix returns all");
}

#[test]
fn all_layouts_returns_base_and_overlays() {
    let layouts = ShortcutCatalog::all_layouts_from_text(
        r#"
[shortcuts]
"nav.down" = { keys = ["j"], group = "Navigation", description = "Move focus down" }

[layout.colemak.shortcuts]
"nav.down" = ["n"]
"#,
    )
    .unwrap();
    assert_eq!(layouts.get("base").unwrap().get("nav.down").unwrap(), &vec!["j".to_string()], "base must hold qwerty value");
    assert_eq!(layouts.get("colemak").unwrap().get("nav.down").unwrap(), &vec!["n".to_string()], "colemak overlay present");
}

#[test]
fn text_that_is_not_toml_gives_no_catalog() {
    assert!(ShortcutCatalog::from_text("[shortcuts", None).is_none());
    assert!(ShortcutCatalog::all_layouts_from_text("= 1").is_none());
}

#[test]
fn non_string_items_and_odd_values_are_read_as_the_catalog_reads_them() {
    let catalog = ShortcutCatalog::from_text(
        r#"
[shortcuts]
a = 3
b = { group = "G" }
c = ["x", 1, "y"]
d = { keys = "k" }

[layout.empty]
title = "no shortcuts table"
"#,
        Some("empty"),
    )
    .unwrap();
    assert_eq!(catalog.shortcuts.len(), 1);
    assert_eq!(catalog.shortcuts[0].id, "c");
    assert_eq!(catalog.shortcuts[0].keys, vec!["x", "y"]);
    let layouts = ShortcutCatalog::all_layouts_from_text("[shortcuts]\nc = [\"x\"]\n[layout.empty]\ntitle = \"t\"\n").unwrap();
    assert!(!layouts.contains_key("empty"));
}
