//! Interface to everything that talks to chezmoi (processes and the files they
//! touch), and a client that does nothing.
use vstd::prelude::*;

use crate::chezmoi::RemoveFilesReport;
use crate::error::KaizenError;
use crate::text::string_views;

verus! {

/// Where a source directory was backed up, and where to restore it.
///
/// The two differ when the effective chezmoi source is a subdirectory of a
/// git repository (`.chezmoiroot`): the whole repository is backed up, so a
/// rollback restores the repository root.
pub struct SourceBackup {
    /// Path the source directory was moved to.
    pub backup_path: String,
    /// Path to restore the backup to on rollback (the git root it came from).
    pub restore_path: String,
}

/// `Path::with_extension`: `p` with the extension of its file name replaced
/// by `ext` (rules of `std::path`).
pub uninterp spec fn path_with_extension(p: Seq<char>, ext: Seq<char>) -> Seq<char>;

/// Calls `Path::new(p).with_extension(ext)`; the result is named by
/// `path_with_extension`, nothing more is claimed about it. An extension
/// holding a path separator makes it panic, so it is not admitted.
#[verifier::external_body]
fn with_extension(p: &str, ext: &str) -> (r: String)
    requires
        !ext@.contains('/'),
    ensures
        r@ == path_with_extension(p@, ext@),
{
    std::path::Path::new(p).with_extension(ext).to_string_lossy().into_owned()
}

/// All external chezmoi interactions.
pub trait ChezmoiClient {
    /// `chezmoi managed --include=files --path-style=absolute`.
    fn managed_files(&self) -> Result<Vec<String>, KaizenError>;

    /// `chezmoi status`: locally modified tracked files.
    fn locally_modified_files(&self) -> Result<Vec<String>, KaizenError>;

    /// The client's answer `answer` to `source_path`. An implementation may
    /// say which answers it gives; by default any answer may come back (and
    /// likewise for the other `answers_` relations below).
    closed spec fn answers_source(&self, answer: Result<Option<String>, KaizenError>) -> bool {
        true
    }

    /// `chezmoi source-path`, only when the path exists on disk.
    fn source_path(&self) -> (r: Result<Option<String>, KaizenError>)
        ensures
            self.answers_source(r),
    ;

    /// The client's answer `answer` to `raw_source_path`.
    closed spec fn answers_raw_source(&self, answer: Result<Option<String>, KaizenError>) -> bool {
        true
    }

    /// `chezmoi source-path` as reported, even if the path does not exist.
    fn raw_source_path(&self) -> (r: Result<Option<String>, KaizenError>)
        ensures
            self.answers_raw_source(r),
    ;

    /// The repository root to use for destructive operations: the source
    /// path resolved by `resolve_source_root`, if there is a source.
    fn source_root(&self) -> Result<Option<String>, KaizenError> {
        match self.source_path() {
            Err(e) => Err(e),
            Ok(None) => Ok(None),
            Ok(Some(p)) => Ok(Some(self.resolve_source_root(p.as_str()))),
        }
    }

    /// The physical root of an effective source path; by default the path
    /// itself (an implementation may walk up to the repository root).
    fn resolve_source_root(&self, effective: &str) -> (r: String)
        default_ensures
            r@ == effective@,
    {
        String::from_str(effective)
    }

    /// `git -C git_root pull --ff-only`.
    fn pull_source(&self, git_root: &str) -> Result<(), KaizenError>;

    /// The client's answer `answer` to `current_remote(source_dir)`.
    closed spec fn answers_remote(&self, source_dir: Seq<char>, answer: Result<Option<String>, KaizenError>) -> bool {
        true
    }

    /// `git remote get-url origin` inside `source_dir`.
    fn current_remote(&self, source_dir: &str) -> (r: Result<Option<String>, KaizenError>)
        ensures
            self.answers_remote(source_dir@, r),
    ;

    /// The client's answer `answer` to `init_source(url)`.
    closed spec fn answers_init(&self, url: Seq<char>, answer: Result<(), KaizenError>) -> bool {
        true
    }

    /// `chezmoi init <url>`.
    fn init_source(&self, url: &str) -> (r: Result<(), KaizenError>)
        ensures
            self.answers_init(url@, r),
    ;

    /// `chezmoi apply`, with `--force` when `force`.
    fn apply(&self, force: bool) -> Result<(), KaizenError>;

    /// Remove dotfiles from disk; a dry run only reports the plan.
    fn remove_files(&self, files: &[String], dry_run: bool) -> Result<RemoveFilesReport, KaizenError>;

    /// The client's answer `answer` to `backup_source_dir(source_dir)`.
    closed spec fn answers_backup(&self, source_dir: Seq<char>, answer: Result<SourceBackup, KaizenError>) -> bool {
        true
    }

    /// Back up the source directory (or its git root).
    fn backup_source_dir(&self, source_dir: &str) -> (r: Result<SourceBackup, KaizenError>)
        ensures
            self.answers_backup(source_dir@, r),
    ;
}

/// Client that succeeds without touching the filesystem or spawning
/// processes.
pub struct NoopChezmoiClient;

impl ChezmoiClient for NoopChezmoiClient {
    fn managed_files(&self) -> (r: Result<Vec<String>, KaizenError>)
        ensures
            r is Ok && r->Ok_0@.len() == 0,
    {
        Ok(Vec::new())
    }

    fn locally_modified_files(&self) -> (r: Result<Vec<String>, KaizenError>)
        ensures
            r is Ok && r->Ok_0@.len() == 0,
    {
        Ok(Vec::new())
    }

    fn source_path(&self) -> (r: Result<Option<String>, KaizenError>)
        ensures
            r == Ok::<Option<String>, KaizenError>(None),
    {
        Ok(None)
    }

    fn raw_source_path(&self) -> (r: Result<Option<String>, KaizenError>)
        ensures
            r == Ok::<Option<String>, KaizenError>(None),
    {
        Ok(None)
    }

    fn pull_source(&self, git_root: &str) -> (r: Result<(), KaizenError>)
        ensures
            r is Ok,
    {
        Ok(())
    }

    fn resolve_source_root(&self, effective: &str) -> (r: String)
        ensures
            r@ == effective@,
    {
        String::from_str(effective)
    }

    fn current_remote(&self, source_dir: &str) -> (r: Result<Option<String>, KaizenError>)
        ensures
            r == Ok::<Option<String>, KaizenError>(None),
    {
        Ok(None)
    }

    fn init_source(&self, url: &str) -> (r: Result<(), KaizenError>)
        ensures
            r is Ok,
    {
        Ok(())
    }

    fn apply(&self, force: bool) -> (r: Result<(), KaizenError>)
        ensures
            r is Ok,
    {
        Ok(())
    }

    fn remove_files(&self, files: &[String], dry_run: bool) -> (r: Result<RemoveFilesReport, KaizenError>)
        ensures
            r is Ok,
            r is Ok ==> string_views(r->Ok_0.removed@) == string_views(files@),
            r is Ok ==> r->Ok_0.skipped@.len() == 0,
    {
        let mut removed: Vec<String> = Vec::new();
        let mut i: usize = 0;
        while i < files.len()
            invariant
                0 <= i <= files@.len(),
                string_views(removed@) == string_views(files@).take(i as int),
            decreases files@.len() - i,
        {
            let ghost before = string_views(removed@);
            removed.push(files[i].clone());
            assert(string_views(removed@) =~= before.push(files@[i as int]@));
            assert(string_views(files@).take(i + 1) =~= string_views(files@).take(i as int).push(files@[i as int]@));
            i = i + 1;
        }
        assert(string_views(files@).take(files@.len() as int) =~= string_views(files@));
        Ok(RemoveFilesReport { removed, skipped: Vec::new() })
    }

    fn backup_source_dir(&self, source_dir: &str) -> (r: Result<SourceBackup, KaizenError>)
        ensures
            r is Ok,
            r is Ok ==> r->Ok_0.backup_path@ == path_with_extension(source_dir@, "bak"@),
            r is Ok ==> r->Ok_0.restore_path@ == source_dir@,
    {
        proof {
            reveal_strlit("bak");
            assert(!"bak"@.contains('/')) by {
                if "bak"@.contains('/') {
                    let i = choose|i: int| 0 <= i < "bak"@.len() && "bak"@[i] == '/';
                    assert(i == 0 || i == 1 || i == 2);
                }
            }
        }
        let backup_path = with_extension(source_dir, "bak");
        Ok(SourceBackup { backup_path, restore_path: String::from_str(source_dir) })
    }
}

} // verus!
