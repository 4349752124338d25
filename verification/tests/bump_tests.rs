use kaizen_core::bump::{BumpManifest, BumpStep};

fn step(name: &str, run: &[&str], capture: &[&str]) -> BumpStep {
    BumpStep {
        name: name.to_owned(),
        run: run.iter().map(|s| s.to_string()).collect(),
        capture: capture.iter().map(|s| s.to_string()).collect(),
    }
}

/// The two steps of the sample `bump.toml` (mise, then nix).
fn sample() -> BumpManifest {
    BumpManifest {
        steps: vec![
            step("mise", &["mise", "upgrade", "--bump"], &["~/.config/mise.lock"]),
            step("nix", &["nix", "flake", "update"], &["~/.config/nix/flake.lock"]),
        ],
    }
}

#[test]
fn filter_empty_returns_all() {
    let m = sample();
    assert_eq!(m.filter_steps(&[]).len(), 2);
}

#[test]
fn filter_by_name() {
    let m = sample();
    let steps = m.filter_steps(&["nix".to_string()]);
    assert_eq!(steps.len(), 1);
    assert_eq!(steps[0].name, "nix");
}

#[test]
fn filter_unknown_returns_empty() {
    let m = sample();
    assert_eq!(m.filter_steps(&["unknown".to_string()]).len(), 0);
}

#[test]
fn filter_keeps_manifest_order() {
    let m = sample();
    let steps = m.filter_steps(&["nix".to_string(), "mise".to_string()]);
    let names: Vec<_> = steps.iter().map(|s| s.name.as_str()).collect();
    assert_eq!(names, vec!["mise", "nix"]);
}
