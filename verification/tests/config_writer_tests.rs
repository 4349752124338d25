use kaizen_core::config::{ExtraConfig, CURRENT_SCHEMA_VERSION};
use kaizen_core::setup::config_writer::{render_config, render_config_rendered};

fn features(names: &[&str]) -> Vec<(String, Option<String>)> {
    names.iter().map(|n| (n.to_string(), None)).collect()
}

fn empty_extra() -> ExtraConfig {
    ExtraConfig::default()
}

#[test]
fn render_includes_schema_version() {
    let out = render_config(&[], &[], "qwerty", "https://example.com", &empty_extra());
    assert!(out.contains(&format!("schema_version = {CURRENT_SCHEMA_VERSION}")));
}

#[test]
fn render_marks_selected_features_enabled() {
    let all = features(&["git", "rust"]);
    let out = render_config(&all, &["git".into()], "qwerty", "https://example.com", &empty_extra());
    assert!(out.contains("[features.git]\nenabled = true"));
    assert!(out.contains("[features.rust]\nenabled = false"));
}

#[test]
fn render_includes_layout() {
    let out = render_config(&[], &[], "colemak", "https://example.com", &empty_extra());
    assert!(out.contains("layout = \"colemak\""));
}

#[test]
fn render_includes_dotfiles_source() {
    let out = render_config(&[], &[], "qwerty", "https://github.com/user/dots", &empty_extra());
    assert!(out.contains("source = \"https://github.com/user/dots\""));
}

#[test]
fn render_dotfiles_section_has_chezmoi_backend() {
    let out = render_config(&[], &[], "qwerty", "https://example.com", &empty_extra());
    assert!(out.contains("[dotfiles]\nbackend = \"chezmoi\""));
}

#[test]
fn render_preserves_extra_nix_packages() {
    let extra = ExtraConfig {
        nix_packages: vec!["ripgrep".into(), "fd".into()],
        ..Default::default()
    };
    let out = render_config(&[], &[], "qwerty", "https://example.com", &extra);
    assert!(out.contains("[extra]"));
    assert!(out.contains("nix_packages = [\"ripgrep\", \"fd\"]"));
}

#[test]
fn render_skips_extra_section_when_empty() {
    let out = render_config(&[], &[], "qwerty", "https://example.com", &empty_extra());
    assert!(!out.contains("[extra]"));
}

#[test]
fn rendered_config_is_exact() {
    let extra = ExtraConfig {
        brew_taps: vec!["'a'".into(), "'b'".into()],
        ..Default::default()
    };
    let out = render_config_rendered(&features(&["x"]), &[], "L", "S", &extra);
    assert_eq!(
        out,
        "schema_version = 1\n\n[features.x]\nenabled = false\n\n[settings]\nlayout = L\n\n\
         [dotfiles]\nbackend = \"chezmoi\"\nsource = S\n\n[extra]\nbrew_taps = ['a', 'b']\n"
    );
}

#[test]
fn render_quotes_strings_the_toml_way() {
    let out = render_config(&[], &[], "a\"b", "s", &empty_extra());
    let layout_line = out.lines().find(|l| l.starts_with("layout = ")).unwrap();
    assert_ne!(layout_line, "layout = a\"b");
    let parsed: toml::Value = toml::from_str(&out).unwrap();
    assert_eq!(parsed["settings"]["layout"].as_str(), Some("a\"b"));
}

#[test]
fn render_is_valid_toml_with_all_extras() {
    let extra = ExtraConfig {
        nix_packages: vec!["fd".into()],
        brew_casks: vec!["zed".into()],
        brew_formulas: vec!["jq".into()],
        brew_taps: vec!["x/y".into()],
    };
    let out = render_config(&features(&["core"]), &["core".into()], "qwerty", "src", &extra);
    let parsed: toml::Value = toml::from_str(&out).unwrap();
    assert_eq!(parsed["extra"]["brew_taps"][0].as_str(), Some("x/y"));
    assert_eq!(parsed["features"]["core"]["enabled"].as_bool(), Some(true));
}
