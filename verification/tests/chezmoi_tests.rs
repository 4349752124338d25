use kaizen_core::chezmoi::{
    normalize_remote, parse_managed_files, parse_source_path_output, parse_status_output, status_output_sliceable,
    remotes_match, FileStatus,
};

#[test]
fn parse_plain_path() {
    let p = parse_source_path_output("/Users/alice/.local/share/chezmoi\n").unwrap();
    assert_eq!(p, "/Users/alice/.local/share/chezmoi");
}

#[test]
fn parse_quoted_path() {
    let p = parse_source_path_output("\"/Users/alice/.local/share/chezmoi\"\n").unwrap();
    assert_eq!(p, "/Users/alice/.local/share/chezmoi");
}

#[test]
fn parse_empty_returns_none() {
    assert!(parse_source_path_output("").is_none());
    assert!(parse_source_path_output("   \n").is_none());
    assert!(parse_source_path_output("\"\"").is_none());
}

#[test]
fn parse_path_with_spaces_in_name() {
    let p = parse_source_path_output("/Users/alice/my dotfiles\n").unwrap();
    assert_eq!(p, "/Users/alice/my dotfiles");
}

#[test]
fn parse_source_path_strips_inner_blanks_after_quotes() {
    let p = parse_source_path_output("  \" /src \"  ").unwrap();
    assert_eq!(p, "/src");
}

#[test]
fn managed_files_absolute_paths() {
    let home = "/home/alice";
    let raw = "/home/alice/.config/helix/config.toml\n/home/alice/.config/zellij/config.kdl\n";
    let files = parse_managed_files(raw, home);
    assert_eq!(files.len(), 2);
    assert_eq!(files[0], "/home/alice/.config/helix/config.toml");
    assert_eq!(files[1], "/home/alice/.config/zellij/config.kdl");
}

#[test]
fn managed_files_relative_paths_joined_with_home() {
    let home = "/home/alice";
    let raw = ".config/helix/config.toml\n.config/niri/config.kdl\n";
    let files = parse_managed_files(raw, home);
    assert_eq!(files[0], "/home/alice/.config/helix/config.toml");
    assert_eq!(files[1], "/home/alice/.config/niri/config.kdl");
}

#[test]
fn managed_files_empty_output() {
    assert!(parse_managed_files("", "/home/alice").is_empty());
}

#[test]
fn managed_files_skips_blank_lines() {
    let raw = "/home/alice/.config/a.toml\n\n   \n/home/alice/.config/b.toml\n";
    assert_eq!(parse_managed_files(raw, "/home/alice").len(), 2);
}

#[test]
fn managed_files_home_with_trailing_slash() {
    let files = parse_managed_files("  a.txt \r\n", "/home/bob/");
    assert_eq!(files, vec!["/home/bob/a.txt".to_string()]);
}

#[test]
fn status_parses_modified_files() {
    let home = "/home/alice";
    let raw = "M  .config/helix/config.toml\nM  .config/mise.toml\n";
    let modified = parse_status_output(raw, home);
    assert_eq!(modified.len(), 2);
    assert_eq!(modified[0].status, FileStatus::Modified);
    assert_eq!(modified[0].path, "/home/alice/.config/helix/config.toml");
}

#[test]
fn status_ignores_non_modified_lines() {
    let home = "/home/alice";
    let raw = "M  .config/helix/config.toml\nA  .config/new.toml\n";
    let result = parse_status_output(raw, home);
    assert_eq!(result.len(), 1);
    assert_eq!(result[0].status, FileStatus::Modified);
}

#[test]
fn status_empty_output_returns_empty() {
    assert!(parse_status_output("", "/home/alice").is_empty());
}

#[test]
fn status_reads_deleted_and_absolute_entries() {
    let raw = "D  /etc/hosts\nMM\n";
    let result = parse_status_output(raw, "/home/alice");
    assert_eq!(result.len(), 1);
    assert_eq!(result[0].status, FileStatus::Deleted);
    assert_eq!(result[0].path, "/etc/hosts");
}

#[test]
fn ssh_and_https_remotes_match() {
    assert!(remotes_match(
        "git@github.com:user/dots.git",
        "https://github.com/user/dots"
    ));
}

#[test]
fn same_ssh_remotes_match() {
    assert!(remotes_match(
        "git@github.com:user/dots.git",
        "git@github.com:user/dots.git"
    ));
}

#[test]
fn different_remotes_do_not_match() {
    assert!(!remotes_match(
        "git@github.com:user/dots.git",
        "git@github.com:other/dots.git"
    ));
}

#[test]
fn normalize_remote_strips_scheme_suffix_and_case() {
    assert_eq!(normalize_remote("  https://Example.com/Repo.git "), "example.com/repo");
    assert_eq!(normalize_remote("https://example.com/repo.git/"), "example.com/repo.git");
    assert_eq!(normalize_remote("git@host:a/b.git.git"), "host/a/b");
}

#[test]
fn status_output_slicing_is_checked_per_line() {
    assert!(status_output_sliceable("M  .zshrc\nD  .vimrc\n"));
    assert!(status_output_sliceable("Mé x\n"));
    assert!(!status_output_sliceable("M  ok\néé broken\n"));
    assert!(status_output_sliceable(""));
}

#[test]
fn remote_spellings_suffixes_and_whitespace_agree() {
    let forms = ["git@github.com:user/dots", "https://github.com/user/dots", "http://github.com/user/dots"];
    for a in forms {
        for b in forms {
            assert!(remotes_match(a, b));
        }
        assert!(remotes_match(&format!("{a}.git"), a));
        assert!(remotes_match(&format!("{a}/"), a));
        assert!(remotes_match(&format!(" \t{a}\n"), a));
    }
    assert!(!remotes_match("https://github.com/user/dots.git/", "https://github.com/user/dots"));
}

#[test]
fn remotes_match_ignores_ascii_case() {
    assert!(remotes_match("git@GitHub.com:User/Dots.git", "https://github.com/user/dots"));
    assert!(remotes_match("https://EXAMPLE.COM/REPO", "https://example.com/repo"));
    assert!(!remotes_match("HTTPS://example.com/repo", "https://example.com/repo"));
    assert!(!remotes_match("https://github.com/user/dots", "https://github.com/user/dotz"));
}

#[test]
fn remote_spellings_agree_with_spaces_inside() {
    assert!(remotes_match("git@my host:team/my dots", "https://my host/team/my dots"));
    assert!(remotes_match("http://my host/team/my dots  ", "git@my host:team/my dots"));
}
