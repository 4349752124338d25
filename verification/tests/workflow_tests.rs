use std::cell::RefCell;

use kaizen_core::backends::workflow::{
    apply_preview, apply_preview_with, clean_caches, nix_preview_with, post_apply, step_message,
    upgrade_outcome, upt_install, upt_preview, upt_update,
};
use kaizen_core::container::{ContainerCleaner, NoopContainerCleaner};
use kaizen_core::error::KaizenError;
use kaizen_core::executor::RecordingExecutor;
use kaizen_core::installer::{Installer, Updater};
use kaizen_core::os::PackageManagerKind;
use kaizen_core::paths::PathProvider;
use kaizen_core::progress::RecordingReporter;
use kaizen_core::toolchain::{DevToolsManager, NoopDevTools, ToolStep};

struct Upt {
    installed: RefCell<Vec<String>>,
    upgrade_result: fn(&[String]) -> Result<(), KaizenError>,
}

impl Installer for Upt {
    fn install(&self, programs: &[String]) -> Result<(), KaizenError> {
        self.installed.borrow_mut().extend(programs.iter().cloned());
        Ok(())
    }
    fn preview_install(&self, programs: &[String]) -> String {
        format!("upt install {}", programs.join(" "))
    }
}

impl Updater for Upt {
    fn upgrade(&self, programs: &[String]) -> Result<(), KaizenError> {
        (self.upgrade_result)(programs)
    }
    fn preview_upgrade(&self, programs: &[String]) -> String {
        format!("upt upgrade {}", programs.join(" "))
    }
}

fn upt(upgrade_result: fn(&[String]) -> Result<(), KaizenError>) -> Upt {
    Upt { installed: RefCell::new(vec![]), upgrade_result }
}

struct Mise;

impl DevToolsManager for Mise {
    fn install_step(&self) -> Option<ToolStep> {
        Some(ToolStep { label: "mise install".into(), command: "mise install".into() })
    }
    fn install(&self, _: bool) -> Result<(), KaizenError> {
        Ok(())
    }
    fn upgrade(&self, _: &[String], _: bool) -> Result<(), KaizenError> {
        Ok(())
    }
}

struct Docker;

impl ContainerCleaner for Docker {
    fn clean_step(&self) -> Option<String> {
        Some("docker system prune -f".into())
    }
    fn clean(&self, _: bool) -> Result<(), KaizenError> {
        Ok(())
    }
}

struct AllTools;

impl PathProvider for AllTools {
    fn home_dir(&self) -> Option<String> {
        Some("/home/u".into())
    }
    fn config_dir(&self) -> Option<String> {
        None
    }
    fn is_tool_available(&self, _: &str) -> bool {
        true
    }
}

fn strings(v: &[&str]) -> Vec<String> {
    v.iter().map(|s| s.to_string()).collect()
}

fn steps(p: &kaizen_core::sync_backend::SyncPreview) -> Vec<(String, String)> {
    p.steps.iter().map(|s| (s.label.clone(), s.command.clone())).collect()
}

#[test]
fn apply_preview_lists_chezmoi_then_dev_tools() {
    let p = apply_preview(&Mise);
    assert_eq!(
        steps(&p),
        vec![
            ("apply dotfiles".to_string(), "chezmoi apply".to_string()),
            ("mise install".to_string(), "mise install".to_string()),
        ]
    );
    assert_eq!(steps(&apply_preview_with(&None)).len(), 1);
}

#[test]
fn upt_preview_includes_install_only_with_programs() {
    let u = upt(|_| Ok(()));
    let p = upt_preview(&u, &NoopDevTools, &strings(&["git", "jq"]));
    assert_eq!(
        steps(&p),
        vec![
            ("install packages".to_string(), "upt install git jq".to_string()),
            ("apply dotfiles".to_string(), "chezmoi apply".to_string()),
        ]
    );
    let p = upt_preview(&u, &Mise, &vec![]);
    assert_eq!(steps(&p)[0].0, "apply dotfiles");
    assert_eq!(steps(&p).len(), 2);
}

#[test]
fn nix_preview_lists_each_switch() {
    let p = nix_preview_with(&strings(&["sudo darwin-rebuild switch", "home-manager switch"]), &None);
    assert_eq!(
        steps(&p),
        vec![
            ("apply dotfiles".to_string(), "chezmoi apply".to_string()),
            ("nix switch".to_string(), "sudo darwin-rebuild switch".to_string()),
            ("nix switch".to_string(), "home-manager switch".to_string()),
        ]
    );
}

#[test]
fn post_apply_announces_the_dev_tools_step() {
    let mut reporter = RecordingReporter::new();
    assert!(post_apply(&Mise, false, &mut reporter).is_ok());
    assert_eq!(reporter.steps(), vec!["→ mise install".to_string()]);
    assert_eq!(step_message("x"), "→ x");
}

#[test]
fn upt_install_runs_only_with_programs_and_not_on_dry_run() {
    let u = upt(|_| Ok(()));
    let mut reporter = RecordingReporter::new();
    let rep = upt_install(&u, &vec![], false, &mut reporter).unwrap();
    assert!(rep.steps.is_empty());
    let rep = upt_install(&u, &strings(&["git"]), true, &mut reporter).unwrap();
    assert_eq!(rep.steps, vec!["upt install git".to_string()]);
    assert!(u.installed.borrow().is_empty());
    let rep = upt_install(&u, &strings(&["git"]), false, &mut reporter).unwrap();
    assert_eq!(rep.steps, vec!["upt install git".to_string()]);
    assert_eq!(*u.installed.borrow(), strings(&["git"]));
    assert_eq!(reporter.steps(), vec!["→ upt install".to_string()]);
}

#[test]
fn partial_upgrade_failures_become_warnings() {
    let w = upgrade_outcome(Err(KaizenError::InstallerPartialFailure { count: 1, failed: strings(&["bat"]) }));
    assert_eq!(w.unwrap(), vec!["bat: failed to upgrade".to_string()]);
    assert!(upgrade_outcome(Ok(())).unwrap().is_empty());
    assert!(matches!(
        upgrade_outcome(Err(KaizenError::HomeDirUnavailable)),
        Err(KaizenError::HomeDirUnavailable)
    ));

    let u = upt(|_| Err(KaizenError::InstallerPartialFailure { count: 1, failed: vec!["fd".into()] }));
    let rep = upt_update(&u, &NoopDevTools, &strings(&["fd", "rg"]), &vec![], false).unwrap();
    assert_eq!(rep.upgraded, strings(&["fd", "rg"]));
    assert_eq!(rep.warnings, vec!["fd: failed to upgrade".to_string()]);

    let failing = upt(|_| Err(KaizenError::CommandFailed { cmd: "upt".into(), code: Some(1) }));
    assert!(upt_update(&failing, &NoopDevTools, &strings(&["fd"]), &vec![], false).is_err());
    let dry = upt_update(&failing, &NoopDevTools, &strings(&["fd"]), &vec![], true).unwrap();
    assert_eq!(dry.upgraded, strings(&["fd"]));
    assert!(dry.warnings.is_empty());
}

#[test]
fn clean_runs_gc_cache_and_container_unless_dry_run() {
    let mut exec = RecordingExecutor::new();
    let rep = clean_caches(&PackageManagerKind::Brew, true, false, &Docker, &mut exec, &AllTools).unwrap();
    assert_eq!(
        rep.steps,
        strings(&[
            "nix-collect-garbage --delete-older-than 7d",
            "nix-store --optimise",
            "brew cleanup",
            "docker system prune -f",
        ])
    );
    let bins: Vec<String> = exec.calls().into_iter().map(|c| c.bin).collect();
    assert_eq!(bins, strings(&["nix-collect-garbage", "nix-store", "brew"]));

    let mut exec = RecordingExecutor::new();
    let rep = clean_caches(&PackageManagerKind::Apt, false, true, &NoopContainerCleaner, &mut exec, &AllTools).unwrap();
    assert_eq!(rep.steps, strings(&["apt-get clean"]));
    assert!(exec.calls().is_empty());
}

struct MockInstaller;

impl Installer for MockInstaller {
    fn install(&self, _programs: &[String]) -> Result<(), KaizenError> {
        Ok(())
    }
    fn preview_install(&self, programs: &[String]) -> String {
        format!("mock install {}", programs.join(" "))
    }
}

impl Updater for MockInstaller {
    fn upgrade(&self, _programs: &[String]) -> Result<(), KaizenError> {
        Ok(())
    }
    fn preview_upgrade(&self, programs: &[String]) -> String {
        format!("mock upgrade {}", programs.join(" "))
    }
}

#[test]
fn install_dry_run_returns_steps_without_calling_upt() {
    let mut reporter = RecordingReporter::new();
    let report = upt_install(&MockInstaller, &strings(&["git", "ripgrep"]), true, &mut reporter).unwrap();
    assert!(!report.steps.is_empty());
    assert!(report.steps[0].contains("git"));
}

#[test]
fn install_empty_programs_returns_empty_report() {
    let mut reporter = RecordingReporter::new();
    let report = upt_install(&MockInstaller, &vec![], true, &mut reporter).unwrap();
    assert!(report.steps.is_empty());
}

#[test]
fn update_dry_run_returns_programs_without_spawning() {
    let report = upt_update(&MockInstaller, &NoopDevTools, &strings(&["git"]), &vec![], true).unwrap();
    assert!(report.upgraded.contains(&"git".to_owned()));
}

#[test]
fn apply_preview_contains_chezmoi() {
    let preview = apply_preview(&NoopDevTools);
    assert!(
        preview.steps.iter().any(|s| s.command.contains("chezmoi apply")),
        "apply_preview must include chezmoi apply"
    );
}

#[test]
fn apply_preview_does_not_contain_upt() {
    let preview = apply_preview(&NoopDevTools);
    assert!(preview.steps.iter().all(|s| !s.command.contains("upt")), "apply_preview must not include upt install");
}

#[test]
fn clean_dry_run_returns_brew_step_on_darwin() {
    let pm = kaizen_core::os::TargetOs::Darwin.package_manager_kind();
    let mut exec = RecordingExecutor::new();
    let report = clean_caches(&pm, false, true, &NoopContainerCleaner, &mut exec, &AllTools).unwrap();
    assert!(
        report.steps.iter().any(|s| s.contains("brew")),
        "darwin clean steps must include brew cleanup, got: {:?}",
        report.steps
    );
}

#[test]
fn clean_dry_run_returns_dnf_step_on_fedora() {
    let pm = kaizen_core::os::TargetOs::Fedora.package_manager_kind();
    let mut exec = RecordingExecutor::new();
    let report = clean_caches(&pm, false, true, &NoopContainerCleaner, &mut exec, &AllTools).unwrap();
    assert!(
        report.steps.iter().any(|s| s.contains("dnf")),
        "fedora clean steps must include dnf clean, got: {:?}",
        report.steps
    );
}

#[test]
fn apply_preview_contains_chezmoi_apply() {
    let preview = apply_preview(&NoopDevTools);
    assert!(
        preview.steps.iter().any(|s| s.command.contains("chezmoi apply")),
        "apply_preview must include chezmoi apply"
    );
}

#[test]
fn apply_preview_does_not_contain_nix_switch() {
    let preview = apply_preview(&NoopDevTools);
    assert!(
        preview.steps.iter().all(|s| !s.command.contains("home-manager") && !s.command.contains("darwin-rebuild")),
        "apply_preview must not include nix switch steps"
    );
}

#[test]
fn clean_dry_run_returns_nix_steps() {
    let mut exec = RecordingExecutor::new();
    let report = clean_caches(&PackageManagerKind::Brew, true, true, &NoopContainerCleaner, &mut exec, &AllTools).unwrap();
    assert!(
        report.steps.iter().any(|s| s.contains("nix-collect-garbage")),
        "nix clean steps must include nix-collect-garbage"
    );
    assert!(exec.calls().is_empty());
}
