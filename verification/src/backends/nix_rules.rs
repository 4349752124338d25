//! Decisions of the Nix and package-manager backends: flake targets, the
//! commands they run, and how they read the output of Homebrew.
use vstd::prelude::*;

use crate::executor::ProcessCommand;
use crate::os::TargetOs;
use crate::text::{
    chars_of, contains_chars, contains_text, copy_range, first_index_from, has_prefix,
    join_path_str, lemma_first_index_found, lemma_first_index_none, lines, path_join,
    split_lines, starts_with, string_of, string_views, trim_start, trim_start_index,
};

verus! {

/// Host part of the home-manager flake target.
pub open spec fn flake_host_of(os: TargetOs) -> Seq<char> {
    if os is Darwin {
        "mac"@
    } else {
        "linux"@
    }
}

pub fn flake_host(os: &TargetOs) -> (r: &'static str)
    ensures
        r@ == flake_host_of(*os),
{
    match os {
        TargetOs::Darwin => "mac",
        _ => "linux",
    }
}

/// Nix profile directories put before `PATH` for Nix subprocesses: the
/// system profiles, then the user's profiles when the home is known.
pub open spec fn nix_path_prefix_of(home: Option<Seq<char>>) -> Seq<Seq<char>> {
    let system = seq!["/nix/var/nix/profiles/default/bin"@, "/run/current-system/sw/bin"@];
    match home {
        Some(h) => system + seq![path_join(h, ".nix-profile/bin"@), path_join(h, ".local/state/nix/profile/bin"@)],
        None => system,
    }
}

pub fn nix_path_prefix(home: &Option<String>) -> (r: Vec<String>)
    ensures
        string_views(r@) == nix_path_prefix_of(crate::paths::opt_str(*home)),
{
    let mut dirs: Vec<String> = Vec::new();
    dirs.push(String::from_str("/nix/var/nix/profiles/default/bin"));
    dirs.push(String::from_str("/run/current-system/sw/bin"));
    match home {
        Some(h) => {
            dirs.push(join_path_str(h.as_str(), ".nix-profile/bin"));
            dirs.push(join_path_str(h.as_str(), ".local/state/nix/profile/bin"));
        },
        None => {},
    }
    assert(string_views(dirs@) =~= nix_path_prefix_of(crate::paths::opt_str(*home)));
    dirs
}

/// The part of `s` after its last `c` (all of `s` when there is none).
pub open spec fn after_last(s: Seq<char>, c: char) -> Seq<char>
    decreases s.len(),
{
    if s.len() == 0 {
        s
    } else if s.last() == c {
        Seq::empty()
    } else {
        after_last(s.drop_last(), c).push(s.last())
    }
}

/// The part of `s` before its first `c` (all of `s` when there is none).
pub open spec fn before_first(s: Seq<char>, c: char) -> Seq<char> {
    match first_index_from(s, c, 0) {
        Some(i) => s.take(i),
        None => s,
    }
}

fn after_last_exec(s: &Vec<char>, c: char) -> (r: Vec<char>)
    ensures
        r@ == after_last(s@, c),
{
    let mut j: usize = s.len();
    assert(s@.take(s@.len() as int) =~= s@);
    assert(s@.skip(s@.len() as int) =~= Seq::<char>::empty());
    assert(after_last(s@, c) =~= after_last(s@.take(j as int), c) + s@.skip(j as int));
    while j > 0 && s[j - 1] != c
        invariant
            0 <= j <= s@.len(),
            after_last(s@, c) == after_last(s@.take(j as int), c) + s@.skip(j as int),
        decreases j,
    {
        proof {
            let t = s@.take(j as int);
            assert(t.drop_last() =~= s@.take(j - 1));
            assert(s@.skip(j - 1) =~= seq![s@[j - 1]] + s@.skip(j as int));
            assert(after_last(t, c) =~= after_last(s@.take(j - 1), c).push(s@[j - 1]));
        }
        j = j - 1;
    }
    proof {
        if j > 0 {
            assert(s@.take(j as int).last() == c);
        }
        assert(s@.take(s@.len() as int) =~= s@);
    }
    let r = copy_range(s, j, s.len());
    assert(r@ =~= s@.skip(j as int));
    proof {
        if j > 0 {
            assert(after_last(s@.take(j as int), c) =~= Seq::<char>::empty());
        } else {
            assert(s@.take(0) =~= Seq::<char>::empty());
        }
        assert(after_last(s@, c) =~= r@);
    }
    r
}

fn before_first_exec(s: &Vec<char>, c: char) -> (r: Vec<char>)
    ensures
        r@ == before_first(s@, c),
{
    let mut i: usize = 0;
    while i < s.len()
        invariant
            0 <= i <= s@.len(),
            forall|k: int| 0 <= k < i ==> s@[k] != c,
        decreases s@.len() - i,
    {
        if s[i] == c {
            proof {
                lemma_first_index_found(s@, c, 0, i as int);
            }
            let r = copy_range(s, 0, i);
            assert(r@ =~= s@.take(i as int));
            return r;
        }
        i = i + 1;
    }
    proof {
        lemma_first_index_none(s@, c, 0);
    }
    let r = copy_range(s, 0, s.len());
    assert(r@ =~= s@);
    r
}

/// Keg name of a formula: the last `/` component of its tap path.
pub open spec fn keg_name_of(formula: Seq<char>) -> Seq<char> {
    after_last(formula, '/')
}

/// Family of a keg: the name before its `@version`.
pub open spec fn keg_base_of(keg: Seq<char>) -> Seq<char> {
    before_first(keg, '@')
}

pub fn keg_name(formula: &str) -> (r: String)
    ensures
        r@ == keg_name_of(formula@),
{
    let c = chars_of(formula);
    string_of(&after_last_exec(&c, '/'))
}

pub fn keg_base(keg: &str) -> (r: String)
    ensures
        r@ == keg_base_of(keg@),
{
    let c = chars_of(keg);
    string_of(&before_first_exec(&c, '@'))
}

/// An installed keg of the same family as `keg` but another version, to
/// unlink: its name is the unversioned base or starts with `base@`, and it
/// is not `keg` itself.
pub open spec fn other_version_of(name: Seq<char>, keg: Seq<char>) -> bool {
    let base = keg_base_of(keg);
    (name == base || has_prefix(name, base + "@"@)) && name != keg
}

pub fn is_other_version(name: &str, keg: &str) -> (b: bool)
    ensures
        b == other_version_of(name@, keg@),
{
    let base = keg_base(keg);
    let mut prefix = base.clone();
    prefix.append("@");
    let n = chars_of(name);
    let p = chars_of(prefix.as_str());
    let same_family = crate::text::str_eq(name, base.as_str()) || starts_with(&n, &p);
    same_family && !crate::text::str_eq(name, keg)
}

/// `brew linkage` reports a broken keg: some line, without its leading
/// blanks, starts with `Missing` or `Broken dependencies`.
pub open spec fn linkage_broken_in(out: Seq<char>) -> bool {
    exists|i: int|
        0 <= i < lines(out).len() && (has_prefix(trim_start(#[trigger] lines(out)[i]), "Missing"@) || has_prefix(
            trim_start(lines(out)[i]),
            "Broken dependencies"@,
        ))
}

pub fn linkage_broken(stdout: &str) -> (b: bool)
    ensures
        b == linkage_broken_in(stdout@),
{
    let text = chars_of(stdout);
    let ls = split_lines(&text);
    let missing = chars_of("Missing");
    let broken = chars_of("Broken dependencies");
    let mut i: usize = 0;
    while i < ls.len()
        invariant
            0 <= i <= ls@.len(),
            ls@.map_values(|l: Vec<char>| l@) == lines(stdout@),
            missing@ == "Missing"@,
            broken@ == "Broken dependencies"@,
            forall|k: int|
                0 <= k < i ==> !(has_prefix(trim_start(#[trigger] lines(stdout@)[k]), "Missing"@) || has_prefix(
                    trim_start(lines(stdout@)[k]),
                    "Broken dependencies"@,
                )),
        decreases ls@.len() - i,
    {
        let line = &ls[i];
        let start = trim_start_index(line);
        let rest = copy_range(line, start, line.len());
        assert(lines(stdout@)[i as int] == line@);
        assert(rest@ == trim_start(line@));
        if starts_with(&rest, &missing) || starts_with(&rest, &broken) {
            return true;
        }
        i = i + 1;
    }
    false
}

/// `brew services info --json` describes a service.
pub fn service_listed(stdout: &str) -> (b: bool)
    ensures
        b == (contains_text(stdout@, "\"running\""@) || contains_text(stdout@, "\"stopped\""@)),
{
    let s = chars_of(stdout);
    let running = chars_of("\"running\"");
    let stopped = chars_of("\"stopped\"");
    contains_chars(&s, &running) || contains_chars(&s, &stopped)
}

/// The home-manager flake target `<nix dir>#<user>@<host>`.
pub fn home_manager_flake(nix_dir: &str, user: &str, host: &str) -> (r: String)
    ensures
        r@ == nix_dir@ + "#"@ + user@ + "@"@ + host@,
{
    let mut r = String::from_str(nix_dir);
    r.append("#");
    r.append(user);
    r.append("@");
    r.append(host);
    r
}

/// The home-manager switch: the installed binary when it is on `PATH`,
/// else `nix run nixpkgs#home-manager`.
pub fn home_manager_command(hm_in_path: bool, flake: &str) -> (c: ProcessCommand)
    ensures
        hm_in_path ==> c.bin@ == "home-manager"@ && string_views(c.args@) == seq![
            "switch"@,
            "--flake"@,
            flake@,
            "--impure"@,
        ],
        !hm_in_path ==> c.bin@ == "nix"@ && string_views(c.args@) == seq![
            "run"@,
            "nixpkgs#home-manager"@,
            "--"@,
            "switch"@,
            "--flake"@,
            flake@,
            "--impure"@,
        ],
        !c.sudo,
        !c.capture_stdout,
{
    let c = if hm_in_path {
        ProcessCommand::run("home-manager", &["switch", "--flake", flake, "--impure"])
    } else {
        ProcessCommand::run("nix", &["run", "nixpkgs#home-manager", "--", "switch", "--flake", flake, "--impure"])
    };
    assert(string_views(c.args@) =~= c.args@.map_values(|a: String| a@));
    c
}

/// The nix-darwin switch, with `sudo`: `darwin-rebuild` when it is
/// installed, else its first run through `nix run`.
pub fn darwin_rebuild_command(available: bool, flake: &str) -> (c: ProcessCommand)
    ensures
        available ==> c.bin@ == "darwin-rebuild"@ && string_views(c.args@) == seq![
            "switch"@,
            "--flake"@,
            flake@,
            "--impure"@,
        ],
        !available ==> c.bin@ == "nix"@ && string_views(c.args@) == seq![
            "run"@,
            "github:LnL7/nix-darwin/master#darwin-rebuild"@,
            "--"@,
            "switch"@,
            "--flake"@,
            flake@,
            "--impure"@,
        ],
        c.sudo,
        !c.capture_stdout,
{
    let c = if available {
        ProcessCommand::run("darwin-rebuild", &["switch", "--flake", flake, "--impure"])
    } else {
        ProcessCommand::run(
            "nix",
            &["run", "github:LnL7/nix-darwin/master#darwin-rebuild", "--", "switch", "--flake", flake, "--impure"],
        )
    };
    assert(string_views(c.args@) =~= c.args@.map_values(|a: String| a@));
    c.sudo()
}

/// The steps of a Nix install, as shown in previews: the nix-darwin switch
/// on macOS, then the home-manager switch.
pub open spec fn nix_install_steps_of(
    darwin: bool,
    darwin_rebuild_available: bool,
    user: Seq<char>,
    nix_dir: Seq<char>,
    host: Seq<char>,
) -> Seq<Seq<char>> {
    let hm = "home-manager switch --flake "@ + nix_dir + "#"@ + user + "@"@ + host + " --impure"@;
    if darwin {
        seq![
            if darwin_rebuild_available {
                "sudo darwin-rebuild switch --flake ~/.config/nix --impure"@
            } else {
                "sudo nix run github:LnL7/nix-darwin/master#darwin-rebuild -- switch --flake ~/.config/nix --impure"@
            },
            hm,
        ]
    } else {
        seq![hm]
    }
}

pub fn nix_install_steps(darwin: bool, darwin_rebuild_available: bool, user: &str, nix_dir: &str, host: &str) -> (r: Vec<
    String,
>)
    ensures
        string_views(r@) == nix_install_steps_of(darwin, darwin_rebuild_available, user@, nix_dir@, host@),
{
    let mut steps: Vec<String> = Vec::new();
    if darwin {
        if darwin_rebuild_available {
            steps.push(String::from_str("sudo darwin-rebuild switch --flake ~/.config/nix --impure"));
        } else {
            steps.push(
                String::from_str(
                    "sudo nix run github:LnL7/nix-darwin/master#darwin-rebuild -- switch --flake ~/.config/nix --impure",
                ),
            );
        }
    }
    let mut hm = String::from_str("home-manager switch --flake ");
    hm.append(nix_dir);
    hm.append("#");
    hm.append(user);
    hm.append("@");
    hm.append(host);
    hm.append(" --impure");
    steps.push(hm);
    assert(string_views(steps@) =~= nix_install_steps_of(darwin, darwin_rebuild_available, user@, nix_dir@, host@));
    steps
}

/// Where an application bundle of a formula appears system-wide.
pub fn system_app_path(app_name: &str) -> (r: String)
    ensures
        r@ == path_join("/Applications"@, app_name@),
{
    join_path_str("/Applications", app_name)
}

/// Warnings of an upgrade whose packages `failed`.
pub fn upgrade_warnings(failed: &Vec<String>) -> (r: Vec<String>)
    ensures
        string_views(r@) == string_views(failed@).map_values(|p: Seq<char>| p + ": failed to upgrade"@),
{
    let mut r: Vec<String> = Vec::new();
    let mut i: usize = 0;
    while i < failed.len()
        invariant
            0 <= i <= failed@.len(),
            string_views(r@) == string_views(failed@).take(i as int).map_values(|p: Seq<char>| p + ": failed to upgrade"@),
        decreases failed@.len() - i,
    {
        let mut w = failed[i].clone();
        w.append(": failed to upgrade");
        let ghost before = string_views(r@);
        r.push(w);
        assert(string_views(r@) =~= before.push(w@));
        assert(string_views(failed@).take(i + 1).map_values(|p: Seq<char>| p + ": failed to upgrade"@) =~= string_views(
            failed@,
        ).take(i as int).map_values(|p: Seq<char>| p + ": failed to upgrade"@).push(failed@[i as int]@ + ": failed to upgrade"@));
        i = i + 1;
    }
    assert(string_views(failed@).take(failed@.len() as int) =~= string_views(failed@));
    r
}

} // verus!
