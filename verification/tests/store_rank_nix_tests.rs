use kaizen_core::variants::{manifest_pairs, variant_manifest_paths};
use std::collections::BTreeMap;

use kaizen_core::backends::nix_rules::{
    darwin_rebuild_command, flake_host, home_manager_command, home_manager_flake, is_other_version,
    keg_base, keg_name, linkage_broken, nix_install_steps, nix_path_prefix, service_listed,
    system_app_path, upgrade_warnings,
};
use kaizen_core::error::KaizenError;
use kaizen_core::feature_store::{
    existing_feature_file, feature_file, feature_names, is_valid_feature_name, list_features, listing_outcome, required_feature_file, sort_names,
    validated_path,
};
use kaizen_core::fs::FileSystem;
use kaizen_core::os::TargetOs;
use kaizen_core::rank::{
    category_label_of, decision_files, empty_matrix_error, missing_score, missing_score_error, Direction,
};

struct Listing(BTreeMap<String, Vec<String>>);

impl FileSystem for Listing {
    fn read_to_string(&self, p: &str) -> Result<String, KaizenError> {
        Err(KaizenError::FeatureNotFound { name: p.into() })
    }
    fn read_dir_paths(&self, p: &str) -> Result<Vec<String>, KaizenError> {
        self.0.get(p).cloned().ok_or_else(|| {
            KaizenError::Io(std::io::Error::new(std::io::ErrorKind::NotFound, p.to_owned()))
        })
    }
    fn path_exists(&self, p: &str) -> bool {
        self.0.contains_key(p)
    }
    fn is_dir(&self, p: &str) -> bool {
        self.0.contains_key(p)
    }
    fn write(&self, _: &str, _: &[u8]) -> Result<(), KaizenError> {
        Ok(())
    }
    fn create_dir_all(&self, _: &str) -> Result<(), KaizenError> {
        Ok(())
    }
    fn rename(&self, _: &str, _: &str) -> Result<(), KaizenError> {
        Ok(())
    }
    fn remove_file(&self, _: &str) -> Result<(), KaizenError> {
        Ok(())
    }
    fn remove_dir_all(&self, _: &str) -> Result<(), KaizenError> {
        Ok(())
    }
}

fn strings(v: &[&str]) -> Vec<String> {
    v.iter().map(|s| s.to_string()).collect()
}

#[test]
fn rejects_path_traversal() {
    assert!(matches!(validated_path("/tmp", "../evil"), Err(KaizenError::InvalidFeatureName { .. })));
}

#[test]
fn rejects_nested_path() {
    assert!(matches!(validated_path("/tmp", "nested/evil"), Err(KaizenError::InvalidFeatureName { .. })));
}

#[test]
fn rejects_empty_name() {
    assert!(matches!(validated_path("/tmp", ""), Err(KaizenError::InvalidFeatureName { .. })));
}

#[test]
fn valid_names_map_to_toml_files() {
    assert_eq!(validated_path("/features", "rust_dev-2").unwrap(), "/features/rust_dev-2.toml");
    assert!(is_valid_feature_name("Core_9-x"));
    assert!(!is_valid_feature_name("café"));
}

#[test]
fn reports_missing_directory() {
    let fs = Listing(BTreeMap::new());
    assert!(matches!(list_features(&fs, "/nonexistent-kaizen-dir"), Err(KaizenError::FeaturesDirNotFound { .. })));
}

#[test]
fn lists_toml_files_from_mem_fs() {
    let mut dirs = BTreeMap::new();
    dirs.insert(
        "/features".to_string(),
        strings(&["/features/rust.toml", "/features/core.toml", "/features/readme.md", "/features/.toml", "/features/bad name.toml"]),
    );
    let names = list_features(&Listing(dirs), "/features").unwrap();
    assert_eq!(names, strings(&["core", "rust"]));
    assert_eq!(feature_names(&strings(&["b.toml", "a.toml"])), strings(&["a", "b"]));
    assert_eq!(sort_names(&strings(&["b", "B", "a", "b"])), strings(&["B", "a", "b", "b"]));
}

#[test]
fn direction_and_labels() {
    assert_eq!(Direction::Max.as_str(), "max");
    assert_eq!(Direction::Min.as_str(), "min");
    assert_eq!(category_label_of(&Some("editor".into()), &Some("T".into())), "editor");
    assert_eq!(category_label_of(&None, &Some("T".into())), "T");
    assert_eq!(category_label_of(&None, &None), "decision");
}

#[test]
fn flake_host_is_mac_on_darwin() {
    assert_eq!(flake_host(&TargetOs::Darwin), "mac");
}

#[test]
fn flake_host_is_linux_on_fedora() {
    assert_eq!(flake_host(&TargetOs::Fedora), "linux");
}

#[test]
fn flake_host_is_linux_on_ubuntu() {
    assert_eq!(flake_host(&TargetOs::Ubuntu), "linux");
}

#[test]
fn kegs_and_families() {
    assert_eq!(keg_name("d12frosted/emacs-plus/emacs-plus@30"), "emacs-plus@30");
    assert_eq!(keg_name("ripgrep"), "ripgrep");
    assert_eq!(keg_base("emacs-plus@30"), "emacs-plus");
    assert!(is_other_version("emacs-plus@31", "emacs-plus@30"));
    assert!(is_other_version("emacs-plus", "emacs-plus@30"));
    assert!(!is_other_version("emacs-plus@30", "emacs-plus@30"));
    assert!(!is_other_version("emacs-plus-native", "emacs-plus@30"));
}

#[test]
fn brew_output_reading() {
    assert!(linkage_broken("System libraries:\n  /usr/lib/libSystem\n  Missing libraries:\n    x\n"));
    assert!(linkage_broken("Broken dependencies:\n"));
    assert!(!linkage_broken("Homebrew libraries:\n  ok\n"));
    assert!(service_listed("[{\"status\":\"running\"}]"));
    assert!(!service_listed("[]"));
}

#[test]
fn nix_commands_and_steps() {
    assert_eq!(home_manager_flake("/h/.config/nix", "alice", "mac"), "/h/.config/nix#alice@mac");
    let hm = home_manager_command(true, "f");
    assert_eq!(hm.bin, "home-manager");
    assert_eq!(hm.args, strings(&["switch", "--flake", "f", "--impure"]));
    let nix = home_manager_command(false, "f");
    assert_eq!(nix.bin, "nix");
    assert_eq!(nix.args[1], "nixpkgs#home-manager");
    let dr = darwin_rebuild_command(false, "f");
    assert!(dr.sudo);
    assert_eq!(dr.bin, "nix");
    assert_eq!(darwin_rebuild_command(true, "f").bin, "darwin-rebuild");
    let steps = nix_install_steps(true, true, "bob", "~/.config/nix", "mac");
    assert_eq!(
        steps,
        strings(&[
            "sudo darwin-rebuild switch --flake ~/.config/nix --impure",
            "home-manager switch --flake ~/.config/nix#bob@mac --impure"
        ])
    );
    assert_eq!(nix_install_steps(false, false, "u", "d", "linux"), strings(&["home-manager switch --flake d#u@linux --impure"]));
    assert_eq!(
        nix_path_prefix(&Some("/home/u".into())),
        strings(&[
            "/nix/var/nix/profiles/default/bin",
            "/run/current-system/sw/bin",
            "/home/u/.nix-profile/bin",
            "/home/u/.local/state/nix/profile/bin"
        ])
    );
    assert_eq!(nix_path_prefix(&None).len(), 2);
    assert_eq!(system_app_path("Emacs.app"), "/Applications/Emacs.app");
    assert_eq!(upgrade_warnings(&strings(&["git"])), strings(&["git: failed to upgrade"]));
}

fn categories(entries: &[&str]) -> Vec<String> {
    decision_files(&strings(entries)).into_iter().map(|(_, c)| c).collect()
}

#[test]
fn loads_decision_from_toml() {
    let files = decision_files(&strings(&["/decisions/terminal.toml"]));
    assert_eq!(files.len(), 1);
    assert_eq!(files[0].0, "/decisions/terminal.toml");
    assert_eq!(files[0].1, "terminal");
}

#[test]
fn loads_multiple_decisions_from_dir() {
    assert_eq!(
        categories(&["/decisions/vcs.toml", "/decisions/terminal.toml"]),
        vec!["terminal", "vcs"]
    );
}

#[test]
fn skip_non_toml_files() {
    let c = categories(&["/decisions/terminal.toml", "/decisions/readme.md"]);
    assert_eq!(c.len(), 1);
    assert_eq!(c[0], "terminal");
}

#[test]
fn decision_files_follow_path_order() {
    let files = decision_files(&strings(&["/d/b.toml", "/d/a/z.toml", "/d/a.toml", "/d/noext"]));
    let paths: Vec<String> = files.into_iter().map(|(p, _)| p).collect();
    assert_eq!(paths, vec!["/d/a/z.toml", "/d/a.toml", "/d/b.toml"]);
}

fn choice_alternatives(alpha: &[&str], beta: &[&str]) -> Vec<(String, Vec<String>)> {
    vec![("alpha".to_string(), strings(alpha)), ("beta".to_string(), strings(beta))]
}

#[test]
fn topsis_empty_alternatives_errors() {
    let e = empty_matrix_error(&Some("choice".into()), &Some("Choice".into()), 2, 0);
    assert!(matches!(e, Some(KaizenError::RankEmpty { category }) if category == "choice"));
    assert!(empty_matrix_error(&None, &None, 2, 2).is_none());
    assert!(matches!(
        empty_matrix_error(&None, &None, 0, 2),
        Some(KaizenError::RankEmpty { category }) if category == "decision"
    ));
}

#[test]
fn topsis_missing_score_errors() {
    let criteria = strings(&["quality", "cost"]);
    let alts = choice_alternatives(&["quality"], &["quality", "cost"]);
    assert!(matches!(
        missing_score_error(&criteria, &alts),
        Some(KaizenError::RankMissingScore { alternative, criterion })
            if alternative == "alpha" && criterion == "cost"
    ));
}

#[test]
fn missing_scores_are_found_in_row_order() {
    let criteria = strings(&["quality", "cost"]);
    assert_eq!(missing_score(&criteria, &choice_alternatives(&["cost", "quality"], &["quality", "cost"])), None);
    assert_eq!(
        missing_score(&criteria, &choice_alternatives(&["cost", "quality"], &["cost"])),
        Some(("beta".to_string(), "quality".to_string()))
    );
    assert_eq!(
        missing_score(&criteria, &choice_alternatives(&[], &[])),
        Some(("alpha".to_string(), "quality".to_string()))
    );
}

#[test]
fn variant_manifests_are_found_under_each_feature() {
    let mut tree: BTreeMap<String, Vec<String>> = BTreeMap::new();
    tree.insert("/f".into(), strings(&["/f/tiling", "/f/shell", "/f/editor"]));
    tree.insert("/f/tiling/variants".into(), strings(&["/f/tiling/variants/yabai", "/f/tiling/variants/aerospace"]));
    tree.insert("/f/tiling/variants/yabai/variant.toml".into(), vec![]);
    tree.insert("/f/tiling/variants/aerospace/variant.toml".into(), vec![]);
    tree.insert("/f/editor/variants".into(), strings(&["/f/editor/variants/empty"]));
    let fs = Listing(tree);
    let found = variant_manifest_paths("/f", &fs);
    assert_eq!(
        found,
        vec![
            ("/f/tiling/variants/yabai/variant.toml".to_string(), "/f/tiling/variants/yabai".to_string()),
            ("/f/tiling/variants/aerospace/variant.toml".to_string(), "/f/tiling/variants/aerospace".to_string()),
        ]
    );
    assert!(variant_manifest_paths("/missing", &fs).is_empty());
}

#[test]
fn install_dry_run_returns_steps_without_spawning() {
    let steps = nix_install_steps(false, false, "<user>", "~/.config/nix", flake_host(&TargetOs::Fedora));
    assert!(!steps.is_empty());
}

#[test]
fn install_dry_run_darwin_steps_include_darwin_rebuild() {
    let report = nix_install_steps(true, false, "<user>", "~/.config/nix", flake_host(&TargetOs::Darwin));
    assert!(
        report.iter().any(|s| s.contains("darwin-rebuild")),
        "darwin steps must include darwin-rebuild, got: {report:?}"
    );
}

#[test]
fn install_dry_run_linux_steps_skip_darwin_rebuild() {
    let report = nix_install_steps(false, false, "<user>", "~/.config/nix", flake_host(&TargetOs::Ubuntu));
    assert!(report.iter().all(|s| !s.contains("darwin-rebuild")), "linux steps must not include darwin-rebuild");
}

#[test]
fn listing_outcome_maps_each_case() {
    let names = listing_outcome("/d", Ok(strings(&["/d/rust.toml", "/d/core.toml", "/d/notes.md", "/d/bad name.toml"])), false)
        .unwrap();
    assert_eq!(names, strings(&["core", "rust"]));
    let io = KaizenError::Io(std::io::Error::new(std::io::ErrorKind::NotFound, "x"));
    match listing_outcome("/d", Err(io), true) {
        Err(KaizenError::FeaturesDirNotFound { path }) => assert_eq!(path, "/d"),
        _ => panic!("expected FeaturesDirNotFound"),
    }
    let other = KaizenError::Io(std::io::Error::new(std::io::ErrorKind::PermissionDenied, "x"));
    assert!(matches!(listing_outcome("/d", Err(other), false), Err(KaizenError::Io(_))));
}

#[test]
fn feature_file_checks_the_name_then_the_file() {
    let mut tree: BTreeMap<String, Vec<String>> = BTreeMap::new();
    tree.insert("/d/core.toml".into(), vec![]);
    let fs = Listing(tree);
    assert_eq!(feature_file(&fs, "/d", "core").unwrap(), Some("/d/core.toml".to_string()));
    assert_eq!(feature_file(&fs, "/d", "rust").unwrap(), None);
    assert!(matches!(feature_file(&fs, "/d", "../evil"), Err(KaizenError::InvalidFeatureName { .. })));
    assert!(matches!(feature_file(&fs, "/d", ""), Err(KaizenError::InvalidFeatureName { .. })));
}

#[test]
fn required_feature_file_names_a_missing_feature() {
    assert_eq!(required_feature_file(Ok(Some("/d/core.toml".into())), "core").unwrap(), "/d/core.toml");
    match required_feature_file(Ok(None), "rust") {
        Err(KaizenError::FeatureNotFound { name }) => assert_eq!(name, "rust"),
        _ => panic!("expected FeatureNotFound"),
    }
    assert!(matches!(
        required_feature_file(Err(KaizenError::InvalidFeatureName { name: "a/b".into() }), "a/b"),
        Err(KaizenError::InvalidFeatureName { .. })
    ));
}

#[test]
fn manifest_pairs_keep_listing_order_and_skip_missing() {
    let found = vec![
        (true, vec![("/f/a/variants/x".to_string(), true), ("/f/a/variants/y".to_string(), false)]),
        (false, vec![("/f/b/variants/z".to_string(), true)]),
        (true, vec![("/f/c/variants/w".to_string(), true)]),
    ];
    assert_eq!(
        manifest_pairs(&found),
        vec![
            ("/f/a/variants/x/variant.toml".to_string(), "/f/a/variants/x".to_string()),
            ("/f/c/variants/w/variant.toml".to_string(), "/f/c/variants/w".to_string()),
        ]
    );
}

#[test]
fn existing_feature_file_reports_invalid_and_missing_features() {
    let mut tree: BTreeMap<String, Vec<String>> = BTreeMap::new();
    tree.insert("/d/core.toml".into(), vec![]);
    let fs = Listing(tree);
    assert_eq!(existing_feature_file(&fs, "/d", "core").unwrap(), "/d/core.toml");
    match existing_feature_file(&fs, "/d", "rust") {
        Err(KaizenError::FeatureNotFound { name }) => assert_eq!(name, "rust"),
        _ => panic!("expected FeatureNotFound"),
    }
    match existing_feature_file(&fs, "/d", "nested/evil") {
        Err(KaizenError::InvalidFeatureName { name }) => assert_eq!(name, "nested/evil"),
        _ => panic!("expected InvalidFeatureName"),
    }
}
