use kaizen_core::progress::{NoopReporter, ProgressReporter, RecordingReporter};

#[test]
fn recording_reporter_captures_steps() {
    let mut r = RecordingReporter::new();
    r.step("→ chezmoi apply");
    r.step("→ mise install");
    assert_eq!(r.steps(), vec!["→ chezmoi apply", "→ mise install"]);
    assert!(r.warnings().is_empty());
}

#[test]
fn recording_reporter_captures_warnings() {
    let mut r = RecordingReporter::new();
    r.warn("features not found");
    assert_eq!(r.warnings(), vec!["features not found"]);
    assert!(r.steps().is_empty());
}

#[test]
fn noop_reporter_does_not_panic() {
    let mut r = NoopReporter;
    r.step("anything");
    r.warn("anything");
}
