//! The workflow steps of the sync backends that only drive the injected
//! interfaces (installer, dev tools, container runtime, executor):
//! previews, package installs and upgrades, post-apply and cleaning.
//!
//! The interfaces are traits without contracts, so each step is split in
//! two: a function that takes what the interface reported and says exactly
//! what comes out, and the function that asks it and passes its answer on.
use vstd::prelude::*;

use super::common::{clean_step_list, clean_steps, opt_view, os_cache_clean};
use super::nix_rules::upgrade_warnings;
use crate::container::ContainerCleaner;
use crate::error::KaizenError;
use crate::executor::{ProcessCommand, ProcessExecutor};
use crate::installer::{Installer, Updater};
use crate::os::PackageManagerKind;
use crate::paths::PathProvider;
use crate::progress::ProgressReporter;
use crate::sync_backend::{CleanReport, InstallReport, SyncPreview, SyncStep, UpdateReport};
use crate::text::string_views;
use crate::toolchain::{DevToolsManager, ToolStep};

verus! {

/// A preview step as plain text: label and command.
pub open spec fn step_view(s: SyncStep) -> (Seq<char>, Seq<char>) {
    (s.label@, s.command@)
}

pub open spec fn preview_view(p: SyncPreview) -> Seq<(Seq<char>, Seq<char>)> {
    p.steps@.map_values(|s: SyncStep| step_view(s))
}

pub open spec fn tool_step_view(t: Option<ToolStep>) -> Seq<(Seq<char>, Seq<char>)> {
    match t {
        Some(s) => seq![(s.label@, s.command@)],
        None => Seq::empty(),
    }
}

/// The step that applies the dotfiles.
pub open spec fn apply_step() -> (Seq<char>, Seq<char>) {
    ("apply dotfiles"@, "chezmoi apply"@)
}

/// Preview of the apply phase: applying the dotfiles, then the dev tools'
/// install step when they have one.
pub open spec fn apply_preview_of(dev: Option<ToolStep>) -> Seq<(Seq<char>, Seq<char>)> {
    seq![apply_step()] + tool_step_view(dev)
}

/// Preview of the package-manager backend: installing the packages (when
/// there are any, with the installer's command), applying the dotfiles,
/// then the dev tools' step.
pub open spec fn upt_preview_of(install: Option<Seq<char>>, dev: Option<ToolStep>) -> Seq<(Seq<char>, Seq<char>)> {
    (match install {
        Some(c) => seq![("install packages"@, c)],
        None => Seq::empty(),
    }) + apply_preview_of(dev)
}

/// Preview of the Nix backend: applying the dotfiles, each Nix switch
/// command, then the dev tools' step.
pub open spec fn nix_preview_of(nix_steps: Seq<Seq<char>>, dev: Option<ToolStep>) -> Seq<(Seq<char>, Seq<char>)> {
    seq![apply_step()] + nix_steps.map_values(|c: Seq<char>| ("nix switch"@, c)) + tool_step_view(dev)
}

fn tool_step_copy(t: &Option<ToolStep>) -> (r: Option<SyncStep>)
    ensures
        match r {
            Some(s) => tool_step_view(*t) == seq![step_view(s)],
            None => tool_step_view(*t) == Seq::<(Seq<char>, Seq<char>)>::empty(),
        },
{
    match t {
        Some(s) => Some(SyncStep { label: s.label.clone(), command: s.command.clone() }),
        None => None,
    }
}

fn apply_sync_step() -> (s: SyncStep)
    ensures
        step_view(s) == apply_step(),
{
    SyncStep { label: String::from_str("apply dotfiles"), command: String::from_str("chezmoi apply") }
}

/// `apply_preview_of` the dev tools' step.
pub fn apply_preview_with(dev: &Option<ToolStep>) -> (r: SyncPreview)
    ensures
        preview_view(r) == apply_preview_of(*dev),
{
    let mut steps: Vec<SyncStep> = Vec::new();
    steps.push(apply_sync_step());
    if let Some(s) = tool_step_copy(dev) {
        steps.push(s);
    }
    let r = SyncPreview { steps };
    assert(preview_view(r) =~= apply_preview_of(*dev));
    r
}

/// `upt_preview_of` the installer's command and the dev tools' step.
pub fn upt_preview_with(install: Option<String>, dev: &Option<ToolStep>) -> (r: SyncPreview)
    ensures
        preview_view(r) == upt_preview_of(
            match install {
                Some(c) => Some(c@),
                None => None,
            },
            *dev,
        ),
{
    let mut steps: Vec<SyncStep> = Vec::new();
    let ghost first: Seq<(Seq<char>, Seq<char>)> = match install {
        Some(ref c) => seq![("install packages"@, c@)],
        None => Seq::empty(),
    };
    if let Some(c) = install {
        steps.push(SyncStep { label: String::from_str("install packages"), command: c });
    }
    assert(steps@.map_values(|s: SyncStep| step_view(s)) =~= first);
    steps.push(apply_sync_step());
    if let Some(s) = tool_step_copy(dev) {
        steps.push(s);
    }
    let r = SyncPreview { steps };
    assert(preview_view(r) =~= first + apply_preview_of(*dev));
    r
}

/// `nix_preview_of` the Nix switch commands and the dev tools' step.
pub fn nix_preview_with(nix_steps: &Vec<String>, dev: &Option<ToolStep>) -> (r: SyncPreview)
    ensures
        preview_view(r) == nix_preview_of(string_views(nix_steps@), *dev),
{
    let mut steps: Vec<SyncStep> = Vec::new();
    steps.push(apply_sync_step());
    let ghost nv = string_views(nix_steps@).map_values(|c: Seq<char>| ("nix switch"@, c));
    let mut i: usize = 0;
    while i < nix_steps.len()
        invariant
            0 <= i <= nix_steps@.len(),
            nv == string_views(nix_steps@).map_values(|c: Seq<char>| ("nix switch"@, c)),
            steps@.map_values(|s: SyncStep| step_view(s)) == seq![apply_step()] + nv.take(i as int),
        decreases nix_steps@.len() - i,
    {
        let ghost before = steps@.map_values(|s: SyncStep| step_view(s));
        steps.push(SyncStep { label: String::from_str("nix switch"), command: nix_steps[i].clone() });
        assert(nv.take(i + 1) =~= nv.take(i as int).push(nv[i as int]));
        assert(steps@.map_values(|s: SyncStep| step_view(s)) =~= before.push(("nix switch"@, nix_steps@[i as int]@)));
        i = i + 1;
    }
    assert(nv.take(nix_steps@.len() as int) =~= nv);
    if let Some(s) = tool_step_copy(dev) {
        steps.push(s);
    }
    let r = SyncPreview { steps };
    assert(preview_view(r) =~= nix_preview_of(string_views(nix_steps@), *dev));
    r
}

/// Preview of the apply phase with the dev tools' step that `dev_tools`
/// reports (`apply_preview_of`).
pub fn apply_preview(dev_tools: &dyn DevToolsManager) -> (r: SyncPreview)
    ensures
        exists|dev: Option<ToolStep>| #[trigger] dev_tools.answers_step(dev) && preview_view(r) == apply_preview_of(dev),
{
    let dev = dev_tools.install_step();
    let r = apply_preview_with(&dev);
    assert(dev_tools.answers_step(dev));
    r
}

/// Preview of the package-manager backend: the installer previews the
/// install of `programs` when there are any (`upt_preview_of`).
pub fn upt_preview<I: Installer + ?Sized>(installer: &I, dev_tools: &dyn DevToolsManager, programs: &Vec<String>) -> (r:
    SyncPreview)
    ensures
        programs@.len() == 0 ==> exists|dev: Option<ToolStep>|
            #[trigger] dev_tools.answers_step(dev) && preview_view(r) == upt_preview_of(None, dev),
        programs@.len() > 0 ==> exists|cmd: String, dev: Option<ToolStep>|
            #![trigger installer.answers_preview(programs@, cmd), dev_tools.answers_step(dev)]
            installer.answers_preview(programs@, cmd) && dev_tools.answers_step(dev) && preview_view(r)
                == upt_preview_of(Some(cmd@), dev),
{
    let install = if programs.len() == 0 {
        None
    } else {
        Some(installer.preview_install(programs.as_slice()))
    };
    let ghost inst = install;
    let dev = dev_tools.install_step();
    let r = upt_preview_with(install, &dev);
    assert(dev_tools.answers_step(dev));
    if programs.len() > 0 {
        assert(installer.answers_preview(programs@, inst->0));
    }
    r
}

/// Preview of the Nix backend with the dev tools' step that `dev_tools`
/// reports (`nix_preview_of`).
pub fn nix_preview(nix_steps: &Vec<String>, dev_tools: &dyn DevToolsManager) -> (r: SyncPreview)
    ensures
        exists|dev: Option<ToolStep>|
            #[trigger] dev_tools.answers_step(dev) && preview_view(r) == nix_preview_of(string_views(nix_steps@), dev),
{
    let dev = dev_tools.install_step();
    let r = nix_preview_with(nix_steps, &dev);
    assert(dev_tools.answers_step(dev));
    r
}

// ── Post-apply ──────────────────────────────────────────────────────────────

/// The progress message of a dev-tools step: `→ <label>`.
pub fn step_message(label: &str) -> (m: String)
    ensures
        m@ == "→ "@ + label@,
{
    let mut m = String::from_str("→ ");
    m.append(label);
    m
}

/// Post-apply housekeeping: announces the dev tools' install step when they
/// have one, then lets them install (a dry run installs nothing). The
/// result is the dev tools' own.
pub fn post_apply(dev_tools: &dyn DevToolsManager, dry_run: bool, reporter: &mut dyn ProgressReporter) -> (r: Result<
    (),
    KaizenError,
>)
    ensures
        dev_tools.answers_install(dry_run, r),
        exists|step: Option<ToolStep>|
            #[trigger] dev_tools.answers_step(step) && (step is Some ==> final(reporter).stepped("→ "@ + step->0.label@)),
{
    let step = dev_tools.install_step();
    let ghost st = step;
    if let Some(s) = step {
        let m = step_message(s.label.as_str());
        reporter.step(m.as_str());
    }
    assert(dev_tools.answers_step(st));
    dev_tools.install(dry_run)
}

// ── Install and upgrade through the package manager ─────────────────────────

/// Installs `programs` with the installer: nothing to do without programs;
/// a dry run only reports the installer's preview; otherwise the install
/// is announced and run, and reported by its preview. No warnings.
pub fn upt_install<I: Installer + ?Sized>(
    installer: &I,
    programs: &Vec<String>,
    dry_run: bool,
    reporter: &mut dyn ProgressReporter,
) -> (r: Result<InstallReport, KaizenError>)
    ensures
        programs@.len() == 0 ==> (r matches Ok(rep) && rep.steps@.len() == 0 && rep.warnings@.len() == 0),
        programs@.len() > 0 && dry_run ==> r is Ok,
        r matches Ok(rep) ==> rep.warnings@.len() == 0 && rep.steps@.len() == (if programs@.len() == 0 {
            0int
        } else {
            1int
        }),
        programs@.len() > 0 && r is Ok ==> exists|cmd: String|
            #[trigger] installer.answers_preview(programs@, cmd) && r->Ok_0.steps@ == seq![cmd],
        programs@.len() > 0 && !dry_run ==> exists|answer: Result<(), KaizenError>|
            #[trigger] installer.answers_install(programs@, answer) && (answer is Err ==> r == Err::<
                InstallReport,
                KaizenError,
            >(answer->Err_0)),
{
    if programs.len() == 0 {
        return Ok(InstallReport { steps: Vec::new(), warnings: Vec::new() });
    }
    if dry_run {
        let preview = installer.preview_install(programs.as_slice());
        let ghost p = preview;
        let r = InstallReport { steps: vec![preview], warnings: Vec::new() };
        assert(installer.answers_preview(programs@, p) && r.steps@ == seq![p]);
        return Ok(r);
    }
    reporter.step("→ upt install");
    let answer = installer.install(programs.as_slice());
    let ghost a = answer;
    assert(installer.answers_install(programs@, a));
    match answer {
        Err(e) => Err(e),
        Ok(_) => {
            let preview = installer.preview_install(programs.as_slice());
            let ghost p = preview;
            let r = InstallReport { steps: vec![preview], warnings: Vec::new() };
            assert(installer.answers_preview(programs@, p) && r.steps@ == seq![p]);
            Ok(r)
        },
    }
}

/// What an upgrade's result leaves for the report: no warning on success,
/// one warning per failed package on a partial failure, the error otherwise.
pub fn upgrade_outcome(result: Result<(), KaizenError>) -> (r: Result<Vec<String>, KaizenError>)
    ensures
        result is Ok ==> (r matches Ok(w) && w@.len() == 0),
        result matches Err(KaizenError::InstallerPartialFailure { count, failed }) ==> (r matches Ok(w) && string_views(
            w@,
        ) == string_views(failed@).map_values(|p: Seq<char>| p + ": failed to upgrade"@)),
        result is Err && !(result->Err_0 is InstallerPartialFailure) ==> r == Err::<Vec<String>, KaizenError>(
            result->Err_0,
        ),
{
    match result {
        Ok(_) => Ok(Vec::new()),
        Err(KaizenError::InstallerPartialFailure { count, failed }) => Ok(upgrade_warnings(&failed)),
        Err(e) => Err(e),
    }
}

/// Upgrades `programs` and the dev `tools`. A dry run with programs reports
/// them as upgraded and runs nothing; a partial failure of the installer
/// becomes warnings (`upgrade_outcome`); the dev tools are upgraded after
/// the packages. The report lists `programs` as upgraded.
pub fn upt_update<I: Updater + ?Sized>(
    installer: &I,
    dev_tools: &dyn DevToolsManager,
    programs: &Vec<String>,
    tools: &Vec<String>,
    dry_run: bool,
) -> (r: Result<UpdateReport, KaizenError>)
    ensures
        programs@.len() > 0 && dry_run ==> (r matches Ok(rep) && rep.warnings@.len() == 0),
        r matches Ok(rep) ==> string_views(rep.upgraded@) == string_views(programs@),
        programs@.len() > 0 && !dry_run ==> exists|answer: Result<(), KaizenError>|
            #[trigger] installer.answers_upgrade(programs@, answer) && upgrade_report(answer, r),
        r is Ok && !(programs@.len() > 0 && dry_run) ==> exists|answer: Result<(), KaizenError>|
            #[trigger] dev_tools.answers_upgrade(tools@, dry_run, answer) && answer is Ok,
{
    let mut warnings: Vec<String> = Vec::new();
    if programs.len() > 0 {
        if dry_run {
            return Ok(UpdateReport { upgraded: crate::progress::copy_strings(programs), warnings });
        }
        let answer = installer.upgrade(programs.as_slice());
        let ghost up = answer;
        match upgrade_outcome(answer) {
            Ok(w) => {
                warnings = w;
            },
            Err(e) => {
                let r = Err(e);
                assert(installer.answers_upgrade(programs@, up) && upgrade_report(up, r));
                return r;
            },
        }
        let dev = dev_tools.upgrade(tools.as_slice(), dry_run);
        let ghost dv = dev;
        let r = match dev {
            Err(e) => Err(e),
            Ok(_) => Ok(UpdateReport { upgraded: crate::progress::copy_strings(programs), warnings }),
        };
        assert(installer.answers_upgrade(programs@, up) && upgrade_report(up, r));
        assert(r is Ok ==> dev_tools.answers_upgrade(tools@, dry_run, dv) && dv is Ok);
        return r;
    }
    let dev = dev_tools.upgrade(tools.as_slice(), dry_run);
    let ghost dv = dev;
    let r = match dev {
        Err(e) => Err(e),
        Ok(_) => Ok(UpdateReport { upgraded: crate::progress::copy_strings(programs), warnings }),
    };
    assert(r is Ok ==> dev_tools.answers_upgrade(tools@, dry_run, dv) && dv is Ok);
    r
}

/// What the package upgrade's answer leaves in the update report
/// (`upgrade_outcome`): no warning on success, one per failed package on a
/// partial failure, and any other error as it is.
pub open spec fn upgrade_report(answer: Result<(), KaizenError>, r: Result<UpdateReport, KaizenError>) -> bool {
    &&& answer is Ok ==> (r is Ok ==> r->Ok_0.warnings@.len() == 0)
    &&& answer matches Err(KaizenError::InstallerPartialFailure { count, failed }) ==> (r is Ok ==> string_views(
        r->Ok_0.warnings@,
    ) == string_views(failed@).map_values(|p: Seq<char>| p + ": failed to upgrade"@))
    &&& answer is Err && !(answer->Err_0 is InstallerPartialFailure) ==> r == Err::<UpdateReport, KaizenError>(
        answer->Err_0,
    )
}

// ── Cleaning ────────────────────────────────────────────────────────────────

/// Runs Nix garbage collection and store optimisation, the first failure
/// ending it.
fn nix_gc<E: ProcessExecutor + ?Sized>(executor: &mut E) -> Result<(), KaizenError> {
    match executor.execute(ProcessCommand::run("nix-collect-garbage", &["--delete-older-than", "7d"])) {
        Err(e) => {
            return Err(e);
        },
        Ok(_) => {},
    }
    match executor.execute(ProcessCommand::run("nix-store", &["--optimise"])) {
        Err(e) => Err(e),
        Ok(_) => Ok(()),
    }
}

/// Cleans caches: the report lists the clean steps (Nix garbage collection
/// when `include_nix`, the package manager's cache, the container
/// runtime's step); unless this is a dry run the Nix store is collected
/// (when `include_nix`), the package manager's cache is cleaned and the
/// container runtime cleans up, the first failure ending it.
pub fn clean_caches<E: ProcessExecutor + ?Sized, C: ContainerCleaner + ?Sized>(
    pm: &PackageManagerKind,
    include_nix: bool,
    dry_run: bool,
    container: &C,
    executor: &mut E,
    paths: &dyn PathProvider,
) -> (r: Result<CleanReport, KaizenError>)
    ensures
        r matches Ok(rep) ==> rep.freed_bytes is None && exists|step: Option<String>|
            #[trigger] container.answers_clean_step(step) && string_views(rep.steps@) == clean_step_list(
                *pm,
                include_nix,
                opt_view(step),
            ),
        dry_run ==> r is Ok,
{
    let steps = clean_steps(pm, include_nix, container);
    let ghost sv = string_views(steps@);
    let ghost step = choose|step: Option<String>|
        #[trigger] container.answers_clean_step(step) && sv == clean_step_list(*pm, include_nix, opt_view(step));
    if !dry_run {
        if include_nix {
            match nix_gc(executor) {
                Err(e) => {
                    return Err(e);
                },
                Ok(_) => {},
            }
        }
        match os_cache_clean(pm, false, executor, paths) {
            Err(e) => {
                return Err(e);
            },
            Ok(_) => {},
        }
        match container.clean(false) {
            Err(e) => {
                return Err(e);
            },
            Ok(_) => {},
        }
    }
    let r = CleanReport { freed_bytes: None, steps };
    assert(container.answers_clean_step(step) && string_views(r.steps@) == clean_step_list(
        *pm,
        include_nix,
        opt_view(step),
    ));
    Ok(r)
}

} // verus!
