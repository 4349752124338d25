use kaizen_core::process::cmd_label;

#[test]
fn cmd_label_no_args() {
    assert_eq!(cmd_label("nix", &[]), "nix");
}

#[test]
fn cmd_label_with_args() {
    assert_eq!(cmd_label("nix", &["flake", "update"]), "nix flake update");
}
