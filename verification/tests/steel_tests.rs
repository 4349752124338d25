use kaizen_core::steel_module::rules::{sort_by_name, user_override_files};
use kaizen_core::steel_module::rules::{
    callback_key, check_hook_providers, config_destination_of, hook_failure_message,
    enabled_list_of_text, enabled_list_text, load_failure_message, module_bindings, resolve_group_conflicts, resolve_read_path, runtime_modules,
    should_load, skipped_by_config_dir,
};
use kaizen_core::steel_module::state::{
    get_string_list, get_string_opt, parse_plist, BindingDecl, KaizenState, PackageManager, Phase,
    PlistValue,
};
use kaizen_core::strmap::StrMap;

fn text(s: &str) -> PlistValue {
    PlistValue { text: s.into(), items: None }
}

fn list(items: &[&str]) -> PlistValue {
    PlistValue {
        text: format!("({})", items.join(" ")),
        items: Some(items.iter().map(|s| s.to_string()).collect()),
    }
}

fn state() -> KaizenState {
    KaizenState::new(StrMap::new())
}

fn binding(module: &str, action: &str, key: &str) -> BindingDecl {
    BindingDecl { module_name: module.into(), action: action.into(), key: key.into(), mode: "normal".into() }
}

#[test]
fn declare_module_collected() {
    let mut s = state();
    let pairs = parse_plist(&vec![text("group"), text("editor"), text("os"), list(&["darwin", "linux"])]);
    s.declare_module("helix".into(), &pairs);
    assert_eq!(s.modules.len(), 1);
    let m = &s.modules[0];
    assert_eq!(m.name, "helix");
    assert_eq!(m.group.as_deref(), Some("editor"));
    assert_eq!(m.os, vec!["darwin", "linux"]);
    assert_eq!(m.stability, "stable");
    assert_eq!(m.description, "");
}

#[test]
fn declare_module_with_colon_prefix_kwargs() {
    let mut s = state();
    let pairs = parse_plist(&vec![text(":group"), text("editor"), text(":stability"), text("experimental"), text(":dangling")]);
    assert_eq!(pairs.len(), 2);
    s.declare_module("helix".into(), &pairs);
    assert_eq!(s.modules[0].group.as_deref(), Some("editor"));
    assert_eq!(s.modules[0].stability, "experimental");
}

#[test]
fn plist_lookups_take_the_first_pair() {
    let pairs = parse_plist(&vec![text("os"), text("darwin"), text("os"), list(&["linux"])]);
    assert_eq!(get_string_list(&pairs, "os"), vec!["darwin"]);
    assert_eq!(get_string_opt(&pairs, "os").as_deref(), Some("darwin"));
    assert!(get_string_list(&pairs, "group").is_empty());
    assert!(get_string_opt(&pairs, "group").is_none());
}

#[test]
fn action_mnemonic_stored_and_retrieved() {
    let mut s = state();
    s.define_action("helix/open".into(), "Open".into(), &parse_plist(&vec![text(":mnemonic"), list(&["f", "f"])]));
    assert_eq!(s.action_mnemonic("helix/open"), Some(vec!["f".to_string(), "f".to_string()]));
    s.define_action("helix/close".into(), "Close".into(), &vec![]);
    assert_eq!(s.action_mnemonic("helix/close"), None);
    assert_eq!(s.action_mnemonic("missing"), None);
}

#[test]
fn define_action_and_bind() {
    let mut s = state();
    s.current_module = "helix".into();
    s.define_action("helix/open".into(), "Open".into(), &vec![]);
    s.bind("helix/open".into(), "space-f-f".into(), "normal".into());
    assert_eq!(s.bindings.len(), 1);
    assert_eq!(s.bindings[0].module_name, "helix");
    assert_eq!(s.bindings[0].action, "helix/open");
    assert_eq!(s.bindings[0].key, "space-f-f");
    assert!(s.validate_bindings().is_empty());
}

#[test]
fn bind_with_unknown_action_flagged_by_validate() {
    let mut s = state();
    s.current_module = "helix".into();
    s.bind("nope".into(), "x".into(), "normal".into());
    let errors = s.validate_bindings();
    assert_eq!(errors, vec!["unknown action 'nope' in module 'helix'".to_string()]);
}

#[test]
fn validate_bindings_catches_unknown_action_in_override() {
    let mut s = state();
    s.rebind("helix".into(), "ghost/action".into(), "ctrl-g".into());
    let errors = s.validate_bindings();
    assert_eq!(errors.len(), 1);
    assert!(errors[0].contains("ghost/action"));
}

#[test]
fn rebind_adds_to_overrides() {
    let mut s = state();
    s.rebind("helix".into(), "helix/open".into(), "ctrl-p".into());
    assert_eq!(s.overrides.len(), 1);
    assert_eq!(s.overrides[0].mode, "normal");
    assert_eq!(s.overrides[0].key, "ctrl-p");
}

#[test]
fn effective_bindings_override_replaces_default() {
    let mut s = state();
    s.bindings = vec![binding("helix", "vcs/ui", "space g g"), binding("helix", "files/pick", "space f f")];
    s.overrides = vec![binding("helix", "vcs/ui", "space o o")];
    let effective = s.effective_bindings();
    assert_eq!(effective.len(), 2);
    assert_eq!(effective[0].key, "space o o");
    assert_eq!(effective[1].key, "space f f");
    assert_eq!(s.bindings[0].key, "space g g");
}

#[test]
fn effective_bindings_appends_unmatched_override() {
    let mut s = state();
    s.bindings = vec![binding("helix", "files/pick", "space f f")];
    s.overrides = vec![binding("helix", "new/action", "ctrl-n"), binding("other", "files/pick", "x")];
    let effective = s.effective_bindings();
    assert_eq!(effective.len(), 3);
    assert!(effective.iter().any(|b| b.action == "new/action" && b.key == "ctrl-n"));
}

#[test]
fn context_globals_shadow_initial() {
    let mut ctx = StrMap::new();
    ctx.insert("layout".to_string(), "qwerty".to_string());
    ctx.insert("os".to_string(), "darwin".to_string());
    let mut s = KaizenState::new(ctx);
    assert_eq!(s.get_context("layout").as_deref(), Some("qwerty"));
    s.set_global(":layout", "colemak".into());
    assert_eq!(s.get_context("layout").as_deref(), Some("colemak"));
    assert_eq!(s.get_context("os").as_deref(), Some("darwin"));
    assert_eq!(s.get_context(":os").as_deref(), Some("darwin"));
    assert!(s.get_context("missing").is_none());
    let merged = s.runtime_context();
    assert_eq!(merged.get("layout").map(|v| v.as_str()), Some("colemak"));
    assert_eq!(merged.get("os").map(|v| v.as_str()), Some("darwin"));
    assert_eq!(merged.len(), 2);
}

#[test]
fn module_config_round_trip() {
    let mut s = state();
    s.set_module_config("helix".into(), ":theme", "dark".into());
    s.set_module_config("helix".into(), "leader", ",".into());
    assert_eq!(s.get_module_config("helix", "leader").as_deref(), Some(","));
    assert_eq!(s.get_module_config("helix", ":theme").as_deref(), Some("dark"));
    assert!(s.get_module_config("vim", "theme").is_none());
}

#[test]
fn packages_collected() {
    let mut s = state();
    s.add_package(PackageManager::Nix, "ripgrep".into());
    s.add_package(PackageManager::Brew, "zed".into());
    s.add_package(PackageManager::Mise, "node".into());
    assert_eq!(s.packages.len(), 3);
}

#[test]
fn use_hook_in_apply_phase_errors() {
    let mut s = state();
    assert!(s.check_use_hook().is_ok());
    s.phase = Phase::Apply;
    assert_eq!(s.check_use_hook().unwrap_err(), "use-hook cannot be called during apply phase");
}

#[test]
fn missing_hook_provider_fails_apply_phase() {
    let consumers = vec!["theme".to_string(), "font".to_string(), "theme".to_string()];
    let providers = vec!["font".to_string()];
    assert_eq!(
        check_hook_providers(&consumers, &providers).unwrap_err(),
        "missing hook providers: theme, theme"
    );
    assert!(check_hook_providers(&consumers, &vec!["font".into(), "theme".into()]).is_ok());
    assert_eq!(hook_failure_message("theme", "boom"), "hook 'theme' failed: boom");
}

#[test]
fn group_conflicts_are_reported_per_group() {
    let mut s = state();
    let g = |name: &str| parse_plist(&vec![text("group"), text(name)]);
    s.declare_module("helix".into(), &g("editor"));
    s.declare_module("neovim".into(), &g("editor"));
    s.declare_module("zellij".into(), &g("mux"));
    s.declare_module("tmux".into(), &g("mux"));
    s.declare_module("git".into(), &vec![]);
    let errors = resolve_group_conflicts(&s).unwrap_err();
    assert_eq!(
        errors,
        vec![
            "group 'editor' claimed by multiple modules: helix, neovim".to_string(),
            "group 'mux' claimed by multiple modules: zellij, tmux".to_string(),
        ]
    );
    let mut ok = state();
    ok.declare_module("helix".into(), &g("editor"));
    assert!(resolve_group_conflicts(&ok).is_ok());
}

#[test]
fn runtime_helpers() {
    let eff = vec![binding("a", "x", "1"), binding("b", "y", "2"), binding("a", "z", "3")];
    let rows = module_bindings(&eff, "a");
    let pairs: Vec<(String, String)> = rows.iter().map(|(a, k, _)| (a.clone(), k.clone())).collect();
    assert_eq!(pairs, vec![("x".to_string(), "1".to_string()), ("z".to_string(), "3".to_string())]);
    assert!(rows.iter().all(|(_, _, m)| m == "normal"));
    assert_eq!(resolve_read_path("/abs", &Some("/m".into())), "/abs");
    assert_eq!(resolve_read_path("rel", &Some("/m".into())), "/m/rel");
    assert_eq!(resolve_read_path("rel", &None), "rel");
    assert_eq!(config_destination_of(&Some("/src".into()), "helix"), "/src/dot_config/helix");
    assert_eq!(config_destination_of(&None, "helix"), "dotfiles/dot_config/helix");
    assert!(skipped_by_config_dir("module.scm") && skipped_by_config_dir("base.toml"));
    assert!(!skipped_by_config_dir("config.toml"));
    assert!(should_load(&None, &"x".to_string()));
    assert!(!should_load(&Some(vec!["y".into()]), &"x".to_string()));
    assert_eq!(load_failure_message(false, "m", "e"), "failed to load module 'm': e");
    assert_eq!(load_failure_message(true, "u", "e"), "failed to load user override 'u': e");
    assert_eq!(callback_key("apply", 12), "*kaizen-apply-cb-12*");
}

#[test]
fn dry_run_flag_comes_from_initial_context() {
    let mut ctx = StrMap::new();
    ctx.insert("dry_run".to_string(), "true".to_string());
    assert!(KaizenState::new(ctx).is_dry_run());
    assert!(!state().is_dry_run());
}

#[test]
fn discovered_modules_sort_by_name_keeping_ties() {
    let modules = vec![
        ("zsh".to_string(), "/f/zsh/module.scm"),
        ("git".to_string(), "/f/git/module.scm"),
        ("nvim".to_string(), "/f/nvim/module.scm"),
        ("git".to_string(), "/g/git/module.scm"),
    ];
    let sorted = sort_by_name(modules);
    let paths: Vec<&str> = sorted.iter().map(|(_, p)| *p).collect();
    assert_eq!(paths, vec!["/f/git/module.scm", "/g/git/module.scm", "/f/nvim/module.scm", "/f/zsh/module.scm"]);
}

#[test]
fn user_overrides_are_scm_files_in_path_order() {
    let files = user_override_files(&vec![
        "/u/zz.scm".to_string(),
        "/u/notes.md".to_string(),
        "/u/keys.scm".to_string(),
    ]);
    assert_eq!(
        files,
        vec![
            ("/u/keys.scm".to_string(), "keys".to_string()),
            ("/u/zz.scm".to_string(), "zz".to_string()),
        ]
    );
}

fn state_with(pairs: &[(&str, &str)]) -> KaizenState {
    let mut ctx = StrMap::new();
    for (k, v) in pairs {
        ctx.insert(k.to_string(), v.to_string());
    }
    KaizenState::new(ctx)
}

#[test]
fn in_mode_sets_binding_mode() {
    let mut s = state();
    s.define_action("helix/insert-char".into(), "Insert char".into(), &vec![]);
    s.bind("helix/insert-char".into(), "a".into(), "insert".into());
    assert_eq!(s.bindings.len(), 1);
    assert_eq!(s.bindings[0].mode, "insert");
}

#[test]
fn two_engines_do_not_share_state() {
    let mut e1 = state();
    let mut e2 = state();
    e1.declare_module("only-in-e1".into(), &parse_plist(&vec![text("group"), text("editor")]));
    e2.declare_module("only-in-e2".into(), &parse_plist(&vec![text("group"), text("tools")]));
    assert_eq!(e1.modules.len(), 1);
    assert_eq!(e1.modules[0].name, "only-in-e1", "e1 must not see e2 modules");
    assert_eq!(e2.modules.len(), 1);
    assert_eq!(e2.modules[0].name, "only-in-e2", "e2 must not see e1 modules");
}

#[test]
fn action_without_mnemonic_returns_none() {
    let mut s = state();
    s.define_action("bare/action".into(), "No mnemonic".into(), &vec![]);
    let a = s.actions.get("bare/action").expect("action must exist");
    assert_eq!(a.mnemonic, None);
    assert!(s.action_mnemonic("bare/action").is_none());
}

#[test]
fn set_global_readable_via_get_context() {
    let mut s = state();
    s.set_global("layout", "colemak".into());
    assert_eq!(s.get_context("layout").as_deref(), Some("colemak"));
}

#[test]
fn initial_context_is_fallback_for_get_context() {
    let s = state_with(&[("theme", "dark")]);
    assert_eq!(s.get_context("theme").as_deref(), Some("dark"));
}

#[test]
fn global_shadows_initial_context() {
    let mut s = state_with(&[("layout", "qwerty")]);
    s.set_global("layout", "colemak".into());
    assert_eq!(s.get_context("layout").as_deref(), Some("colemak"));
}

#[test]
fn runtime_json_contains_modules_actions_bindings() {
    let mut s = state();
    s.current_module = "mymod".into();
    s.declare_module("mymod".into(), &parse_plist(&vec![text(":group"), text("tools")]));
    s.define_action("mymod/open".into(), "Open".into(), &parse_plist(&vec![text(":mnemonic"), list(&["o"])]));
    s.bind("mymod/open".into(), "ctrl-o".into(), "normal".into());
    assert_eq!(s.modules[0].name, "mymod");
    assert!(s.actions.contains_key("mymod/open"));
    assert_eq!(s.action_mnemonic("mymod/open").unwrap()[0], "o");
    let rows = module_bindings(&s.effective_bindings(), "mymod");
    assert_eq!(rows[0].0, "mymod/open");
    assert_eq!(rows[0].1, "ctrl-o");
}

#[test]
fn runtime_json_context_merges_initial_and_globals() {
    let mut s = state_with(&[("os", "darwin")]);
    s.set_global("layout", "colemak".into());
    let ctx = s.runtime_context();
    assert_eq!(ctx.get("os").map(|v| v.as_str()), Some("darwin"), "initial_context must appear");
    assert_eq!(ctx.get("layout").map(|v| v.as_str()), Some("colemak"), "globals must appear");
}

#[test]
fn runtime_json_globals_shadow_initial_context() {
    let mut s = state_with(&[("layout", "qwerty")]);
    s.set_global("layout", "colemak".into());
    assert_eq!(s.runtime_context().get("layout").map(|v| v.as_str()), Some("colemak"), "global must shadow initial");
}

#[test]
fn runtime_modules_carry_group_and_effective_bindings() {
    let mut s = state();
    s.declare_module("helix".into(), &parse_plist(&vec![text("group"), text("editor")]));
    s.declare_module("zsh".into(), &parse_plist(&vec![]));
    s.bindings.push(binding("helix", "save", "C-s"));
    s.bindings.push(binding("zsh", "clear", "C-l"));
    s.bindings.push(binding("helix", "quit", "C-q"));
    s.overrides.push(binding("helix", "save", "C-w"));
    let ms = runtime_modules(&s);
    assert_eq!(ms.len(), 2);
    assert_eq!(ms[0].name, "helix");
    assert_eq!(ms[0].group.as_deref(), Some("editor"));
    assert_eq!(
        ms[0].bindings,
        vec![
            ("save".to_string(), "C-w".to_string(), "normal".to_string()),
            ("quit".to_string(), "C-q".to_string(), "normal".to_string()),
        ]
    );
    assert_eq!(ms[1].name, "zsh");
    assert_eq!(ms[1].group, None);
    assert_eq!(ms[1].bindings, vec![("clear".to_string(), "C-l".to_string(), "normal".to_string())]);
}

#[test]
fn enabled_list_reads_the_string_items_of_enabled() {
    assert_eq!(
        enabled_list_of_text("enabled = [\"helix\", 3, \"zsh\"]\n"),
        Some(vec!["helix".to_string(), "zsh".to_string()])
    );
    assert_eq!(enabled_list_of_text("enabled = \"helix\"\n"), None);
    assert_eq!(enabled_list_of_text("other = [\"x\"]\n"), None);
    assert_eq!(enabled_list_of_text("enabled = [\n"), None);
    assert_eq!(enabled_list_of_text("enabled = []\n"), Some(vec![]));
}

#[test]
fn enabled_list_text_round_trips() {
    let names = vec!["helix".to_string(), "zsh".to_string()];
    let text = enabled_list_text(&names).unwrap();
    assert_eq!(enabled_list_of_text(&text), Some(names));
    let val: toml::Value = toml::from_str(&text).unwrap();
    assert_eq!(val["enabled"].as_array().unwrap().len(), 2);
}
