use kaizen_core::backends::common::{
    cache_clean_command, clean_report_from_steps, clean_steps, clean_steps_with, os_cache_clean,
};
use kaizen_core::container::{ContainerCleaner, NoopContainerCleaner};
use kaizen_core::error::{chezmoi_apply_message, KaizenError};
use kaizen_core::executor::{NoopExecutor, ProcessCommand, ProcessExecutor, RecordingExecutor};
use kaizen_core::manifest::{default_version, validate, KaizenManifest, ManifestFeature};
use kaizen_core::os::PackageManagerKind;
use kaizen_core::config::{DotfilesConfig, ExtraConfig, UserSettings};
use kaizen_core::path::sort_dedup_paths;
use kaizen_core::plan::{config_plan_from_settings, flags_in_order};
use kaizen_core::paths::{config_dir_from, PathProvider};
use kaizen_core::strmap::StrMap;
use kaizen_core::toolchain::{DevToolsManager, NoopDevTools};

struct Tools(bool);

impl PathProvider for Tools {
    fn home_dir(&self) -> Option<String> {
        None
    }
    fn config_dir(&self) -> Option<String> {
        None
    }
    fn is_tool_available(&self, _tool: &str) -> bool {
        self.0
    }
}

struct Docker;

impl ContainerCleaner for Docker {
    fn clean_step(&self) -> Option<String> {
        Some("docker system prune -f".into())
    }
    fn clean(&self, _dry_run: bool) -> Result<(), KaizenError> {
        Ok(())
    }
}

fn strings(v: &[&str]) -> Vec<String> {
    v.iter().map(|s| s.to_string()).collect()
}

#[test]
fn sort_dedup_keeps_first_of_equal_paths() {
    let out = sort_dedup_paths(&strings(&["b/", "a", "b", "/x", "a/./"]));
    assert_eq!(out, strings(&["/x", "a", "b/"]));
}

#[test]
fn sort_dedup_orders_by_components() {
    let out = sort_dedup_paths(&strings(&["a-b", "a/b", "..", "."]));
    assert_eq!(out, strings(&[".", "..", "a/b", "a-b"]));
}

#[test]
fn strmap_keeps_keys_sorted_and_replaces_values() {
    let mut m: StrMap<u32> = StrMap::new();
    m.insert("b".into(), 1);
    m.insert("a".into(), 2);
    m.insert("b".into(), 3);
    assert_eq!(m.len(), 2);
    assert_eq!(m.get("b"), Some(&3));
    assert!(m.contains_key("a"));
    assert!(!m.contains_key("c"));
    let keys: Vec<_> = m.entries().iter().map(|(k, _)| k.clone()).collect();
    assert_eq!(keys, strings(&["a", "b"]));
}

#[test]
fn recording_executor_records_commands() {
    let mut ex = RecordingExecutor::new();
    ex.execute(ProcessCommand::run("brew", &["cleanup"]).sudo()).unwrap();
    ex.execute(ProcessCommand::run("nix", &[]).capturing()).unwrap();
    assert!(ex.was_called_with("brew"));
    assert!(!ex.was_called_with("apt"));
    let calls = ex.calls();
    assert_eq!(calls.len(), 2);
    assert!(calls[0].sudo && !calls[0].capture_stdout);
    assert_eq!(calls[0].args, strings(&["cleanup"]));
    assert!(calls[1].capture_stdout && !calls[1].sudo);
    let out = NoopExecutor.execute(ProcessCommand::run("x", &[])).unwrap();
    assert!(out.stdout.is_empty());
}

#[test]
fn clean_steps_lists_nix_pm_and_container() {
    let steps = clean_steps(&PackageManagerKind::Dnf, true, &Docker);
    assert_eq!(
        steps,
        strings(&[
            "nix-collect-garbage --delete-older-than 7d",
            "nix-store --optimise",
            "dnf clean all",
            "docker system prune -f"
        ])
    );
    assert!(clean_steps(&PackageManagerKind::Unknown, false, &NoopContainerCleaner).is_empty());
    assert_eq!(clean_steps_with(&PackageManagerKind::Pacman, false, None), strings(&["paccache -r"]));
    let report = clean_report_from_steps(strings(&["x"]));
    assert!(report.freed_bytes.is_none());
    assert_eq!(report.steps, strings(&["x"]));
}

#[test]
fn os_cache_clean_runs_only_when_available() {
    let mut ex = RecordingExecutor::new();
    os_cache_clean(&PackageManagerKind::Apt, false, &mut ex, &Tools(true)).unwrap();
    os_cache_clean(&PackageManagerKind::Brew, true, &mut ex, &Tools(true)).unwrap();
    os_cache_clean(&PackageManagerKind::Dnf, false, &mut ex, &Tools(false)).unwrap();
    os_cache_clean(&PackageManagerKind::Unknown, false, &mut ex, &Tools(true)).unwrap();
    let calls = ex.calls();
    assert_eq!(calls.len(), 1);
    assert_eq!(calls[0].bin, "apt-get");
    assert_eq!(calls[0].args, strings(&["clean"]));
    assert!(cache_clean_command(&PackageManagerKind::Unknown).is_none());
    assert_eq!(cache_clean_command(&PackageManagerKind::Dnf).unwrap().args, strings(&["clean", "all"]));
}

#[test]
fn manifest_validation() {
    let ok = KaizenManifest { schema_version: default_version(), features: vec![] };
    assert!(validate(&ok).is_ok());
    let newer = KaizenManifest {
        schema_version: 2,
        features: vec![ManifestFeature { name: "core".into(), description: "Core".into() }],
    };
    assert!(matches!(
        validate(&newer),
        Err(KaizenError::ManifestSchemaTooNew { found: 2, supported: 1 })
    ));
}

#[test]
fn config_dir_falls_back_to_home() {
    assert_eq!(config_dir_from(Some("/c".into()), Some("/h".into())), Some("/c".into()));
    assert_eq!(config_dir_from(None, Some("/h".into())), Some("/h/.config".into()));
    assert_eq!(config_dir_from(None, Some("/h/".into())), Some("/h/.config".into()));
    assert_eq!(config_dir_from(None, None), None);
}

#[test]
fn apply_message_variants() {
    let m = chezmoi_apply_message(&Some(1), &Some("x has changed since chezmoi y".into()));
    assert!(m.starts_with("chezmoi apply failed: managed files have local changes"));
    assert!(m.ends_with("Details: x has changed since chezmoi y"));
    let m = chezmoi_apply_message(&None, &Some("map has no entry for key \"a\"".into()));
    assert!(m.contains("Hint: a template references a missing feature key."));
    assert_eq!(chezmoi_apply_message(&Some(-3), &None), "chezmoi apply failed with exit code Some(-3)");
    assert_eq!(chezmoi_apply_message(&None, &None), "chezmoi apply failed with exit code None");
    assert_eq!(chezmoi_apply_message(&None, &Some("boom".into())), "chezmoi apply failed\n\nboom");
}

#[test]
fn noop_ports_do_nothing() {
    assert!(NoopContainerCleaner.clean_step().is_none());
    assert!(NoopContainerCleaner.clean(false).is_ok());
    assert!(NoopDevTools.install_step().is_none());
    assert!(NoopDevTools.install(true).is_ok());
    assert!(NoopDevTools.upgrade(&strings(&["node"]), false).is_ok());
}

#[test]
fn plan_from_settings_copies_config_level_values() {
    let dotfiles = DotfilesConfig { backend: None, source: Some("git@host:me/dots".into()) };
    let settings = UserSettings { layout: Some("colemak".into()) };
    let extra = ExtraConfig {
        nix_packages: vec!["ripgrep".into()],
        brew_casks: vec![],
        brew_formulas: vec!["jq".into()],
        brew_taps: vec![],
    };
    let plan = config_plan_from_settings(&dotfiles, &settings, &extra);
    assert_eq!(plan.backend, "");
    assert_eq!(plan.dotfiles_source.as_deref(), Some("git@host:me/dots"));
    assert!(flags_in_order(&plan.features_data).is_empty());
    assert_eq!(plan.settings.layout.as_deref(), Some("colemak"));
    assert_eq!(plan.extra.nix_packages, vec!["ripgrep".to_string()]);
    assert_eq!(plan.extra.brew_formulas, vec!["jq".to_string()]);
    assert_eq!(plan.variants.len(), 0);

    let chezmoi = DotfilesConfig { backend: Some("chezmoi".into()), source: None };
    let plan = config_plan_from_settings(&chezmoi, &UserSettings::default(), &ExtraConfig::default());
    assert_eq!(plan.backend, "chezmoi");
    assert!(plan.dotfiles_source.is_none());
    assert!(plan.extra.is_empty());
}
