use kaizen_core::chezmoi::RemoveFilesReport;
use kaizen_core::chezmoi_client::{ChezmoiClient, SourceBackup};
use kaizen_core::engine::{
    category_order, choose_features_dir, default_config_path_from, enabled_known, order_by_category,
    resolve_features_dir,
};
use kaizen_core::error::KaizenError;
use kaizen_core::fs::FileSystem;
use kaizen_core::progress::NoopReporter;

struct Dirs(Vec<&'static str>);

impl FileSystem for Dirs {
    fn read_to_string(&self, p: &str) -> Result<String, KaizenError> {
        Err(KaizenError::FeatureNotFound { name: p.into() })
    }
    fn read_dir_paths(&self, _: &str) -> Result<Vec<String>, KaizenError> {
        Ok(vec![])
    }
    fn path_exists(&self, p: &str) -> bool {
        self.0.contains(&p)
    }
    fn is_dir(&self, p: &str) -> bool {
        self.0.contains(&p)
    }
    fn write(&self, _: &str, _: &[u8]) -> Result<(), KaizenError> {
        Ok(())
    }
    fn create_dir_all(&self, _: &str) -> Result<(), KaizenError> {
        Ok(())
    }
    fn rename(&self, _: &str, _: &str) -> Result<(), KaizenError> {
        Ok(())
    }
    fn remove_file(&self, _: &str) -> Result<(), KaizenError> {
        Ok(())
    }
    fn remove_dir_all(&self, _: &str) -> Result<(), KaizenError> {
        Ok(())
    }
}

struct SourceClient(Option<String>);

impl ChezmoiClient for SourceClient {
    fn managed_files(&self) -> Result<Vec<String>, KaizenError> {
        Ok(vec![])
    }
    fn locally_modified_files(&self) -> Result<Vec<String>, KaizenError> {
        Ok(vec![])
    }
    fn source_path(&self) -> Result<Option<String>, KaizenError> {
        Ok(self.0.clone())
    }
    fn raw_source_path(&self) -> Result<Option<String>, KaizenError> {
        Ok(self.0.clone())
    }
    fn pull_source(&self, _: &str) -> Result<(), KaizenError> {
        Ok(())
    }
    fn current_remote(&self, _: &str) -> Result<Option<String>, KaizenError> {
        Ok(None)
    }
    fn init_source(&self, _: &str) -> Result<(), KaizenError> {
        Ok(())
    }
    fn apply(&self, _: bool) -> Result<(), KaizenError> {
        Ok(())
    }
    fn remove_files(&self, f: &[String], _: bool) -> Result<RemoveFilesReport, KaizenError> {
        Ok(RemoveFilesReport { removed: f.to_vec(), skipped: vec![] })
    }
    fn backup_source_dir(&self, p: &str) -> Result<SourceBackup, KaizenError> {
        Ok(SourceBackup { backup_path: p.into(), restore_path: p.into() })
    }
}

#[test]
fn category_order_runs_dev_first_and_ai_last() {
    assert_eq!(category_order("dev"), 0);
    assert_eq!(category_order("system"), 1);
    assert_eq!(category_order("misc"), 50);
    assert_eq!(category_order("ai"), 100);
}

#[test]
fn resolve_features_dir_finds_features_in_chezmoi_source() {
    let fs = Dirs(vec!["/src/kaizen/features"]);
    let dir = resolve_features_dir(None, &NoopReporter, &SourceClient(Some("/src".into())), &fs).unwrap();
    assert_eq!(dir, "/src/kaizen/features");
}

#[test]
fn resolve_features_dir_errors_when_source_has_no_features() {
    let fs = Dirs(vec![]);
    let err = resolve_features_dir(None, &NoopReporter, &SourceClient(Some("/src".into())), &fs).unwrap_err();
    assert!(matches!(err, KaizenError::FeaturesDirNotFound { path } if path == "kaizen/features"));
}

#[test]
fn resolve_features_dir_uses_monorepo_layout_when_no_chezmoi_source() {
    let fs = Dirs(vec!["dotfiles/kaizen/features"]);
    let dir = resolve_features_dir(None, &NoopReporter, &SourceClient(None), &fs).unwrap();
    assert_eq!(dir, "dotfiles/kaizen/features");
    let explicit = resolve_features_dir(Some("/x".into()), &NoopReporter, &SourceClient(None), &fs).unwrap();
    assert_eq!(explicit, "/x");
}

#[test]
fn default_config_path_under_config_dir() {
    assert_eq!(default_config_path_from(Some("/home/a/.config".into())), "/home/a/.config/kaizen/config.toml");
    assert_eq!(default_config_path_from(None), ".config/kaizen/config.toml");
}

#[test]
fn entries_run_dev_then_system_then_ai() {
    let entries = vec![
        ("alpha".to_string(), "ai".to_string(), "alpha-cmd"),
        ("beta".to_string(), "dev".to_string(), "beta-cmd"),
        ("gamma".to_string(), "system".to_string(), "gamma-cmd"),
    ];
    let names: Vec<String> = order_by_category(entries).into_iter().map(|(n, _, _)| n).collect();
    assert_eq!(names, vec!["beta", "gamma", "alpha"]);
}

#[test]
fn other_categories_run_between_system_and_ai_sorted_by_name() {
    let entries = vec![
        ("zeta".to_string(), "ai".to_string(), 1),
        ("mu".to_string(), "shell".to_string(), 2),
        ("kappa".to_string(), "editor".to_string(), 3),
        ("eta".to_string(), "system".to_string(), 4),
        ("beta".to_string(), "dev".to_string(), 5),
        ("alpha".to_string(), "dev".to_string(), 6),
    ];
    let order: Vec<i32> = order_by_category(entries).into_iter().map(|(_, _, v)| v).collect();
    assert_eq!(order, vec![6, 5, 4, 3, 2, 1]);
}

#[test]
fn features_dir_decision_prefers_explicit_then_source_then_monorepo() {
    assert_eq!(choose_features_dir(Some("/x".into()), Some("/s".into()), true, true).unwrap(), "/x");
    assert_eq!(choose_features_dir(None, Some("/s".into()), true, true).unwrap(), "/s/kaizen/features");
    assert_eq!(choose_features_dir(None, Some("/s".into()), false, true).unwrap(), "dotfiles/kaizen/features");
    assert_eq!(choose_features_dir(None, None, false, true).unwrap(), "dotfiles/kaizen/features");
    assert!(matches!(
        choose_features_dir(None, Some("/s".into()), false, false),
        Err(KaizenError::FeaturesDirNotFound { path }) if path == "kaizen/features"
    ));
}

#[test]
fn enabled_known_keeps_enabled_features_with_a_category_in_config_order() {
    let mut cats = kaizen_core::strmap::StrMap::new();
    cats.insert("rust".to_string(), "dev".to_string());
    cats.insert("core".to_string(), "system".to_string());
    cats.insert("ai".to_string(), "ai".to_string());
    let flags = vec![
        ("rust".to_string(), true),
        ("ai".to_string(), false),
        ("unknown".to_string(), true),
        ("core".to_string(), true),
    ];
    assert_eq!(
        enabled_known(&flags, &cats),
        vec![("rust".to_string(), "dev".to_string()), ("core".to_string(), "system".to_string())]
    );
}
