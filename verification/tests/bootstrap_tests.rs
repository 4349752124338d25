use std::collections::{BTreeMap, BTreeSet};
use std::sync::Mutex;

use kaizen_core::chezmoi::RemoveFilesReport;
use kaizen_core::chezmoi_client::{ChezmoiClient, NoopChezmoiClient, SourceBackup};
use kaizen_core::error::KaizenError;
use kaizen_core::fs::FileSystem;
use kaizen_core::manifest::{FEATURES_SUBDIR, KAIZEN_DIR};
use kaizen_core::setup::chezmoi_bootstrap::{
    bootstrap_status, init_outcome, reinit_outcome, repository_root, resolve_features_dir_from_source,
    status_for_reported, status_for_source, BootstrapStatus, ChezmoiBootstrapper,
};

/// In-memory filesystem: files and the directories above them.
#[derive(Default)]
struct MemFs {
    files: Mutex<BTreeMap<String, Vec<u8>>>,
    dirs: Mutex<BTreeSet<String>>,
}

impl MemFs {
    fn add_dir(&self, path: &str) {
        let mut cur = String::new();
        for part in path.split('/') {
            if part.is_empty() {
                if cur.is_empty() {
                    cur.push('/');
                }
                continue;
            }
            if !cur.is_empty() && !cur.ends_with('/') {
                cur.push('/');
            }
            cur.push_str(part);
            self.dirs.lock().unwrap().insert(cur.clone());
        }
    }
}

fn not_found(path: &str) -> KaizenError {
    KaizenError::Io(std::io::Error::new(std::io::ErrorKind::NotFound, path.to_owned()))
}

impl FileSystem for MemFs {
    fn read_to_string(&self, path: &str) -> Result<String, KaizenError> {
        let files = self.files.lock().unwrap();
        files
            .get(path)
            .map(|b| String::from_utf8_lossy(b).into_owned())
            .ok_or_else(|| not_found(path))
    }
    fn read_dir_paths(&self, path: &str) -> Result<Vec<String>, KaizenError> {
        if !self.is_dir(path) {
            return Err(not_found(path));
        }
        let prefix = format!("{}/", path.trim_end_matches('/'));
        Ok(self
            .files
            .lock()
            .unwrap()
            .keys()
            .filter(|p| p.starts_with(&prefix) && !p[prefix.len()..].contains('/'))
            .cloned()
            .collect())
    }
    fn path_exists(&self, path: &str) -> bool {
        self.files.lock().unwrap().contains_key(path) || self.dirs.lock().unwrap().contains(path)
    }
    fn is_dir(&self, path: &str) -> bool {
        self.dirs.lock().unwrap().contains(path)
    }
    fn write(&self, path: &str, content: &[u8]) -> Result<(), KaizenError> {
        self.files.lock().unwrap().insert(path.to_owned(), content.to_vec());
        Ok(())
    }
    fn create_dir_all(&self, path: &str) -> Result<(), KaizenError> {
        self.add_dir(path);
        Ok(())
    }
    fn rename(&self, from: &str, to: &str) -> Result<(), KaizenError> {
        let mut files = self.files.lock().unwrap();
        let content = files.remove(from).ok_or_else(|| not_found(from))?;
        files.insert(to.to_owned(), content);
        Ok(())
    }
    fn remove_file(&self, path: &str) -> Result<(), KaizenError> {
        self.files.lock().unwrap().remove(path).map(|_| ()).ok_or_else(|| not_found(path))
    }
    fn remove_dir_all(&self, path: &str) -> Result<(), KaizenError> {
        self.files.lock().unwrap().retain(|p, _| !p.starts_with(path));
        self.dirs.lock().unwrap().retain(|p| !p.starts_with(path));
        Ok(())
    }
}

/// Client whose source is fixed and whose remote is given.
struct FakeClient {
    source: Option<String>,
    raw: Option<String>,
    remote: Option<String>,
}

impl ChezmoiClient for FakeClient {
    fn managed_files(&self) -> Result<Vec<String>, KaizenError> {
        Ok(vec![])
    }
    fn locally_modified_files(&self) -> Result<Vec<String>, KaizenError> {
        Ok(vec![])
    }
    fn source_path(&self) -> Result<Option<String>, KaizenError> {
        Ok(self.source.clone())
    }
    fn raw_source_path(&self) -> Result<Option<String>, KaizenError> {
        Ok(self.raw.clone())
    }
    fn pull_source(&self, _: &str) -> Result<(), KaizenError> {
        Ok(())
    }
    fn current_remote(&self, _: &str) -> Result<Option<String>, KaizenError> {
        Ok(self.remote.clone())
    }
    fn init_source(&self, _: &str) -> Result<(), KaizenError> {
        Ok(())
    }
    fn apply(&self, _: bool) -> Result<(), KaizenError> {
        Ok(())
    }
    fn remove_files(&self, f: &[String], _: bool) -> Result<RemoveFilesReport, KaizenError> {
        Ok(RemoveFilesReport { removed: f.to_vec(), skipped: vec![] })
    }
    fn backup_source_dir(&self, p: &str) -> Result<SourceBackup, KaizenError> {
        Ok(SourceBackup { backup_path: format!("{p}.bak"), restore_path: p.to_owned() })
    }
}

fn features_under(source: &str) -> String {
    format!("{source}/{KAIZEN_DIR}/{FEATURES_SUBDIR}")
}

#[test]
fn resolve_explicit_dir_is_returned_unchanged() {
    let fs = MemFs::default();
    let result = resolve_features_dir_from_source(Some("/explicit"), "/irrelevant", &fs);
    assert_eq!(result, "/explicit");
}

#[test]
fn resolve_kaizen_features_subdir_when_it_exists() {
    let fs = MemFs::default();
    let features = features_under("/source");
    fs.add_dir(&features);
    let result = resolve_features_dir_from_source(None, "/source", &fs);
    assert_eq!(result, features);
}

#[test]
fn resolve_returns_expected_path_even_when_dir_absent() {
    let fs = MemFs::default();
    let result = resolve_features_dir_from_source(None, "/source", &fs);
    assert_eq!(result, "/source/kaizen/features");
}

#[test]
fn init_errors_when_source_has_no_kaizen_features() {
    let client = FakeClient { source: Some("/source".into()), raw: Some("/source".into()), remote: None };
    let bootstrapper = ChezmoiBootstrapper::new(Box::new(client), Box::new(MemFs::default()));
    assert!(matches!(
        bootstrapper.init("https://example.com/dotfiles"),
        Err(KaizenError::FeaturesDirNotFound { .. })
    ));
}

#[test]
fn init_returns_source_when_features_exist() {
    let fs = MemFs::default();
    fs.add_dir(&features_under("/source"));
    let client = FakeClient { source: Some("/source".into()), raw: None, remote: None };
    let b = ChezmoiBootstrapper::new(Box::new(client), Box::new(fs));
    assert_eq!(b.init("u").unwrap(), "/source");
}

#[test]
fn check_reports_up_to_date_and_conflict() {
    let url = "https://github.com/me/dots";
    let up = ChezmoiBootstrapper::new(
        Box::new(FakeClient {
            source: Some("/s".into()),
            raw: None,
            remote: Some("git@github.com:me/dots.git".into()),
        }),
        Box::new(MemFs::default()),
    );
    assert!(matches!(up.check(url).unwrap(), BootstrapStatus::AlreadyUpToDate(s) if s == "/s"));
    let other = ChezmoiBootstrapper::new(
        Box::new(FakeClient { source: Some("/s".into()), raw: None, remote: None }),
        Box::new(MemFs::default()),
    );
    assert!(matches!(
        other.check(url).unwrap(),
        BootstrapStatus::Conflict { current_remote: None, .. }
    ));
}

#[test]
fn check_reports_stale_source_and_init_required() {
    let url = "https://github.com/me/dots";
    let stale = ChezmoiBootstrapper::new(
        Box::new(FakeClient {
            source: None,
            raw: Some("/repo/home".into()),
            remote: Some(url.into()),
        }),
        Box::new(MemFs::default()),
    );
    match stale.check(url).unwrap() {
        BootstrapStatus::StaleSource { git_root, expected_source } => {
            assert_eq!(git_root, "/repo");
            assert_eq!(expected_source, "/repo/home");
        }
        _ => panic!("expected a stale source"),
    }
    let none = ChezmoiBootstrapper::new(
        Box::new(FakeClient { source: None, raw: None, remote: None }),
        Box::new(MemFs::default()),
    );
    assert!(matches!(none.check(url).unwrap(), BootstrapStatus::InitRequired));
}

#[test]
fn status_functions_follow_the_remote() {
    assert!(matches!(
        status_for_source("/s".into(), Some("https://h/x".into()), "git@h:x.git"),
        BootstrapStatus::AlreadyUpToDate(_)
    ));
    assert!(matches!(
        status_for_reported("/r".into(), "/r/s".into(), Some("https://h/y".into()), "https://h/x"),
        BootstrapStatus::Conflict { .. }
    ));
    assert!(matches!(
        status_for_reported("/r".into(), "/r/s".into(), None, "https://h/x"),
        BootstrapStatus::InitRequired
    ));
}

#[test]
fn backup_and_reinit_restores_backup_on_failure() {
    let fs = MemFs::default();
    fs.write("/s.bak", b"x").unwrap();
    let b = ChezmoiBootstrapper::new(
        Box::new(FakeClient { source: Some("/s".into()), raw: None, remote: None }),
        Box::new(fs),
    );
    assert!(matches!(b.backup_and_reinit("u", "/s"), Err(KaizenError::FeaturesDirNotFound { .. })));
}

#[test]
fn noop_client_answers_nothing() {
    let c = NoopChezmoiClient;
    assert!(c.source_path().unwrap().is_none());
    assert!(c.source_root().unwrap().is_none());
    let backup = c.backup_source_dir("/home/a/src.d").unwrap();
    assert_eq!(backup.backup_path, "/home/a/src.bak");
    assert_eq!(backup.restore_path, "/home/a/src.d");
    let report = c.remove_files(&["a".into(), "b".into()], true).unwrap();
    assert_eq!(report.removed, vec!["a".to_string(), "b".into()]);
}

#[test]
fn repository_root_is_the_parent_of_the_reported_source() {
    assert_eq!(repository_root("/home/u/dots/home"), "/home/u/dots");
    assert_eq!(repository_root("/"), "/");
}

#[test]
fn bootstrap_status_prefers_the_existing_source() {
    let url = "git@github.com:user/dots.git";
    match bootstrap_status(Some("/s".into()), Some("https://github.com/user/dots".into()), Some("/r/s".into()), None, url) {
        BootstrapStatus::AlreadyUpToDate(s) => assert_eq!(s, "/s"),
        _ => panic!("expected up to date"),
    }
    match bootstrap_status(Some("/s".into()), None, None, None, url) {
        BootstrapStatus::Conflict { source, current_remote } => {
            assert_eq!(source, "/s");
            assert_eq!(current_remote, None);
        }
        _ => panic!("expected conflict"),
    }
    match bootstrap_status(None, None, Some("/r/s".into()), Some("https://github.com/user/dots".into()), url) {
        BootstrapStatus::StaleSource { git_root, expected_source } => {
            assert_eq!(git_root, "/r");
            assert_eq!(expected_source, "/r/s");
        }
        _ => panic!("expected stale source"),
    }
    match bootstrap_status(None, None, Some("/r/s".into()), Some("https://github.com/other/dots".into()), url) {
        BootstrapStatus::Conflict { source, .. } => assert_eq!(source, "/r"),
        _ => panic!("expected conflict at the root"),
    }
    assert!(matches!(bootstrap_status(None, None, Some("/r/s".into()), None, url), BootstrapStatus::InitRequired));
    assert!(matches!(bootstrap_status(None, None, None, None, url), BootstrapStatus::InitRequired));
}

#[test]
fn init_outcome_needs_a_source_with_features() {
    assert!(matches!(init_outcome(None, true), Err(KaizenError::ChezmoidataTargetUnknown)));
    assert_eq!(init_outcome(Some("/src".into()), true).unwrap(), "/src");
    match init_outcome(Some("/src".into()), false) {
        Err(KaizenError::FeaturesDirNotFound { path }) => assert_eq!(path, features_under("/src")),
        _ => panic!("expected FeaturesDirNotFound"),
    }
}

#[test]
fn reinit_outcome_pairs_source_and_backup() {
    assert_eq!(reinit_outcome(Ok(Some("/src".into())), "/src.bak".into()).unwrap(), ("/src".to_string(), "/src.bak".to_string()));
    assert!(matches!(reinit_outcome(Ok(None), "/b".into()), Err(KaizenError::ChezmoidataTargetUnknown)));
    assert!(matches!(
        reinit_outcome(Err(KaizenError::HomeDirUnavailable), "/b".into()),
        Err(KaizenError::HomeDirUnavailable)
    ));
}
