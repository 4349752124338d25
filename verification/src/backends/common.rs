//! Steps shared by the sync backends: cache cleaning and clean reports.
use vstd::prelude::*;

use crate::container::ContainerCleaner;
use crate::error::KaizenError;
use crate::executor::{ProcessCommand, ProcessExecutor};
use crate::os::PackageManagerKind;
use crate::paths::PathProvider;
use crate::sync_backend::CleanReport;
use crate::text::string_views;

verus! {

/// The report of a clean run made of `steps`; the freed space is unknown.
pub fn clean_report_from_steps(steps: Vec<String>) -> (r: CleanReport)
    ensures
        r.freed_bytes is None,
        r.steps == steps,
{
    CleanReport { freed_bytes: None, steps }
}

/// The command that cleans the cache of a package manager, if it has one.
pub open spec fn pm_clean_command(pm: PackageManagerKind) -> Option<Seq<char>> {
    match pm {
        PackageManagerKind::Brew => Some("brew cleanup"@),
        PackageManagerKind::Dnf => Some("dnf clean all"@),
        PackageManagerKind::Apt => Some("apt-get clean"@),
        PackageManagerKind::Pacman => Some("paccache -r"@),
        PackageManagerKind::Unknown => None,
    }
}

/// Clean steps: Nix garbage collection (when asked for), the package
/// manager's cache, and the container runtime's step (when it has one).
pub open spec fn clean_step_list(
    pm: PackageManagerKind,
    include_nix: bool,
    container: Option<Seq<char>>,
) -> Seq<Seq<char>> {
    (if include_nix {
        seq!["nix-collect-garbage --delete-older-than 7d"@, "nix-store --optimise"@]
    } else {
        Seq::empty()
    }) + (match pm_clean_command(pm) {
        Some(c) => seq![c],
        None => Seq::empty(),
    }) + (match container {
        Some(c) => seq![c],
        None => Seq::empty(),
    })
}

pub open spec fn opt_view(o: Option<String>) -> Option<Seq<char>> {
    match o {
        Some(s) => Some(s@),
        None => None,
    }
}

/// Clean steps given the container runtime's step.
pub fn clean_steps_with(pm: &PackageManagerKind, include_nix: bool, container_step: Option<String>) -> (r: Vec<
    String,
>)
    ensures
        string_views(r@) == clean_step_list(*pm, include_nix, opt_view(container_step)),
{
    let mut steps: Vec<String> = Vec::new();
    if include_nix {
        steps.push(String::from_str("nix-collect-garbage --delete-older-than 7d"));
        steps.push(String::from_str("nix-store --optimise"));
    }
    let ghost nix = string_views(steps@);
    let pm_cmd: Option<&str> = match pm {
        PackageManagerKind::Brew => Some("brew cleanup"),
        PackageManagerKind::Dnf => Some("dnf clean all"),
        PackageManagerKind::Apt => Some("apt-get clean"),
        PackageManagerKind::Pacman => Some("paccache -r"),
        PackageManagerKind::Unknown => None,
    };
    if let Some(cmd) = pm_cmd {
        steps.push(String::from_str(cmd));
    }
    let ghost with_pm = string_views(steps@);
    if let Some(step) = container_step {
        steps.push(step);
    }
    proof {
        let a = if include_nix {
            seq!["nix-collect-garbage --delete-older-than 7d"@, "nix-store --optimise"@]
        } else {
            Seq::<Seq<char>>::empty()
        };
        assert(nix =~= a);
        let b = match pm_clean_command(*pm) {
            Some(c) => seq![c],
            None => Seq::<Seq<char>>::empty(),
        };
        assert(with_pm =~= a + b);
        assert(string_views(steps@) =~= clean_step_list(*pm, include_nix, opt_view(container_step)));
    }
    steps
}

/// Clean steps for a package manager, Nix and the container runtime; the
/// container's step is whatever `container.clean_step()` reports.
pub fn clean_steps<C: ContainerCleaner + ?Sized>(pm: &PackageManagerKind, include_nix: bool, container: &C) -> (r: Vec<
    String,
>)
    ensures
        exists|step: Option<String>|
            #[trigger] container.answers_clean_step(step) && string_views(r@) == clean_step_list(
                *pm,
                include_nix,
                opt_view(step),
            ),
{
    let step = container.clean_step();
    let ghost st = step;
    let r = clean_steps_with(pm, include_nix, step);
    assert(container.answers_clean_step(st) && string_views(r@) == clean_step_list(*pm, include_nix, opt_view(st)));
    r
}

/// Binary and arguments that clean a package manager's cache, if any.
pub open spec fn cache_clean_call(pm: PackageManagerKind) -> Option<(Seq<char>, Seq<Seq<char>>)> {
    match pm {
        PackageManagerKind::Brew => Some(("brew"@, seq!["cleanup"@])),
        PackageManagerKind::Dnf => Some(("dnf"@, seq!["clean"@, "all"@])),
        PackageManagerKind::Apt => Some(("apt-get"@, seq!["clean"@])),
        PackageManagerKind::Pacman => Some(("paccache"@, seq!["-r"@])),
        PackageManagerKind::Unknown => None,
    }
}

/// The cache-cleaning command of a package manager (`cache_clean_call`).
pub fn cache_clean_command(pm: &PackageManagerKind) -> (r: Option<ProcessCommand>)
    ensures
        cache_clean_call(*pm) is None <==> r is None,
        r matches Some(c) ==> cache_clean_call(*pm) == Some((c.bin@, string_views(c.args@))) && !c.sudo
            && !c.capture_stdout,
{
    let r = match pm {
        PackageManagerKind::Brew => Some(ProcessCommand::run("brew", &["cleanup"])),
        PackageManagerKind::Dnf => Some(ProcessCommand::run("dnf", &["clean", "all"])),
        PackageManagerKind::Apt => Some(ProcessCommand::run("apt-get", &["clean"])),
        PackageManagerKind::Pacman => Some(ProcessCommand::run("paccache", &["-r"])),
        PackageManagerKind::Unknown => None,
    };
    proof {
        if r is Some {
            let c = r->0;
            assert(string_views(c.args@) =~= c.args@.map_values(|a: String| a@));
            match *pm {
                PackageManagerKind::Brew => {
                    assert(string_views(c.args@) =~= seq!["cleanup"@]);
                },
                PackageManagerKind::Dnf => {
                    assert(string_views(c.args@) =~= seq!["clean"@, "all"@]);
                },
                PackageManagerKind::Apt => {
                    assert(string_views(c.args@) =~= seq!["clean"@]);
                },
                PackageManagerKind::Pacman => {
                    assert(string_views(c.args@) =~= seq!["-r"@]);
                },
                PackageManagerKind::Unknown => {},
            }
        }
    }
    r
}

/// Runs `cmd` unless this is a dry run or its binary is not on `PATH`.
fn run_if_available<E: ProcessExecutor + ?Sized>(cmd: ProcessCommand, dry_run: bool, executor: &mut E, paths: &dyn PathProvider) -> (r:
    Result<(), KaizenError>)
    ensures
        dry_run ==> r is Ok,
{
    if dry_run || !paths.is_tool_available(cmd.bin.as_str()) {
        return Ok(());
    }
    match executor.execute(cmd) {
        Ok(_) => Ok(()),
        Err(e) => Err(e),
    }
}

/// Clean the package manager's cache when its tool is available; nothing
/// happens for an unknown package manager or on a dry run.
pub fn os_cache_clean<E: ProcessExecutor + ?Sized>(
    pm: &PackageManagerKind,
    dry_run: bool,
    executor: &mut E,
    paths: &dyn PathProvider,
) -> (r: Result<(), KaizenError>)
    ensures
        dry_run || cache_clean_call(*pm) is None ==> r is Ok,
{
    match cache_clean_command(pm) {
        None => Ok(()),
        Some(cmd) => run_if_available(cmd, dry_run, executor, paths),
    }
}

} // verus!
