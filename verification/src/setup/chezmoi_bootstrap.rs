//! Initialising the chezmoi source: inspecting what is there, backing it up,
//! and running `chezmoi init`.
use vstd::prelude::*;

use crate::chezmoi::{normalized_remote, remotes_match};
use crate::chezmoi_client::{ChezmoiClient, SourceBackup};
use crate::error::KaizenError;
use crate::fs::FileSystem;
use crate::manifest::{FEATURES_SUBDIR, KAIZEN_DIR};
use crate::text::{join_path_str, path_join};

verus! {

/// Outcome of inspecting the chezmoi source before bootstrapping.
pub enum BootstrapStatus {
    /// The source exists and its remote matches the requested URL.
    AlreadyUpToDate(String),
    /// The source exists but has another (or no) remote: ask the user.
    Conflict { source: String, current_remote: Option<String> },
    /// There is no chezmoi source: run `init`.
    InitRequired,
    /// chezmoi reports a source path that is missing on disk, while the
    /// repository above it has the requested remote: the clone is stale and
    /// safe to pull.
    StaleSource {
        /// Repository root to pull from.
        git_root: String,
        /// The source path expected after pulling.
        expected_source: String,
    },
}

/// `Path::parent` of a Unix path (rules of `std::path`).
pub uninterp spec fn path_parent(p: Seq<char>) -> Option<Seq<char>>;

/// Calls `Path::new(p).parent()`; the result is named by `path_parent`,
/// nothing more is claimed about it.
#[verifier::external_body]
fn parent_path(p: &str) -> (r: Option<String>)
    ensures
        r matches Some(s) ==> path_parent(p@) == Some(s@),
        r is None ==> path_parent(p@) is None,
{
    std::path::Path::new(p).parent().map(|q| q.to_string_lossy().into_owned())
}

/// `remote` is present and names the repository of `url`.
pub open spec fn remote_matches(remote: Option<String>, url: Seq<char>) -> bool {
    match remote {
        Some(r) => normalized_remote(r@) == normalized_remote(url),
        None => false,
    }
}

fn remote_matches_exec(remote: &Option<String>, url: &str) -> (b: bool)
    ensures
        b == remote_matches(*remote, url@),
{
    match remote {
        Some(r) => remotes_match(r.as_str(), url),
        None => false,
    }
}

/// Status of an existing source whose remote is `remote`: up to date when
/// the remote names the repository of `url`, else a conflict.
pub open spec fn source_status(source: String, remote: Option<String>, url: Seq<char>) -> BootstrapStatus {
    if remote_matches(remote, url) {
        BootstrapStatus::AlreadyUpToDate(source)
    } else {
        BootstrapStatus::Conflict { source, current_remote: remote }
    }
}

/// Status of a reported but missing source `reported`, whose repository
/// root `root` has the remote `remote`: stale when the remote names the
/// repository of `url`, a conflict under another remote, else `init`.
pub open spec fn reported_status(root: String, reported: String, remote: Option<String>, url: Seq<char>) -> BootstrapStatus {
    if remote_matches(remote, url) {
        BootstrapStatus::StaleSource { git_root: root, expected_source: reported }
    } else if remote is Some {
        BootstrapStatus::Conflict { source: root, current_remote: remote }
    } else {
        BootstrapStatus::InitRequired
    }
}

/// The repository root of a reported source: its parent, or itself when it
/// has none.
pub open spec fn root_of(reported: Seq<char>) -> Seq<char> {
    match path_parent(reported) {
        Some(p) => p,
        None => reported,
    }
}

/// Status of an existing source whose remote is `remote` (`source_status`).
pub fn status_for_source(source: String, remote: Option<String>, url: &str) -> (st: BootstrapStatus)
    ensures
        st == source_status(source, remote, url@),
{
    if remote_matches_exec(&remote, url) {
        BootstrapStatus::AlreadyUpToDate(source)
    } else {
        BootstrapStatus::Conflict { source, current_remote: remote }
    }
}

/// Status of a reported but missing source `reported`, whose repository
/// root `root` has the remote `remote` (`reported_status`).
pub fn status_for_reported(root: String, reported: String, remote: Option<String>, url: &str) -> (st:
    BootstrapStatus)
    ensures
        st == reported_status(root, reported, remote, url@),
{
    if remote_matches_exec(&remote, url) {
        BootstrapStatus::StaleSource { git_root: root, expected_source: reported }
    } else if remote.is_some() {
        BootstrapStatus::Conflict { source: root, current_remote: remote }
    } else {
        BootstrapStatus::InitRequired
    }
}

/// The `kaizen/features` directory under a source directory.
pub open spec fn features_dir_under(source: Seq<char>) -> Seq<char> {
    path_join(path_join(source, KAIZEN_DIR@), FEATURES_SUBDIR@)
}

fn features_dir_of(source: &str) -> (r: String)
    ensures
        r@ == features_dir_under(source@),
{
    let k = join_path_str(source, KAIZEN_DIR);
    join_path_str(k.as_str(), FEATURES_SUBDIR)
}

/// The repository root of a reported source (`root_of`).
pub fn repository_root(reported: &str) -> (r: String)
    ensures
        r@ == root_of(reported@),
{
    match parent_path(reported) {
        Some(p) => p,
        None => String::from_str(reported),
    }
}

/// The bootstrap status from what the client reported: an existing source
/// has its status under its own remote (`source_status`); else a reported
/// source has its status under the remote of its repository root
/// (`reported_status` with `root_of`); with neither, `init` is required.
pub fn bootstrap_status(
    source: Option<String>,
    source_remote: Option<String>,
    reported: Option<String>,
    root_remote: Option<String>,
    url: &str,
) -> (st: BootstrapStatus)
    ensures
        source matches Some(s) ==> st == source_status(s, source_remote, url@),
        source is None && reported is None ==> st == BootstrapStatus::InitRequired,
        source is None && reported is Some ==> exists|root: String|
            root@ == root_of(reported->0@) && st == reported_status(root, reported->0, root_remote, url@),
{
    match source {
        Some(s) => status_for_source(s, source_remote, url),
        None => match reported {
            None => BootstrapStatus::InitRequired,
            Some(q) => {
                let root = repository_root(q.as_str());
                status_for_reported(root, q, root_remote, url)
            },
        },
    }
}

/// The outcome of `init` once `chezmoi init` has run, from the source
/// chezmoi then reports and whether its `kaizen/features` is a directory:
/// no source is `ChezmoidataTargetUnknown`; a source without
/// `kaizen/features` is `FeaturesDirNotFound` naming that directory; else
/// the source.
pub open spec fn init_result(source: Option<String>, features_is_dir: bool, r: Result<String, KaizenError>) -> bool {
    &&& source is None ==> (r matches Err(KaizenError::ChezmoidataTargetUnknown))
    &&& source is Some && features_is_dir ==> r == Ok::<String, KaizenError>(source->0)
    &&& source is Some && !features_is_dir ==> (r matches Err(KaizenError::FeaturesDirNotFound { path })
        && path@ == features_dir_under(source->0@))
}

/// `init_result`.
pub fn init_outcome(source: Option<String>, features_is_dir: bool) -> (r: Result<String, KaizenError>)
    ensures
        init_result(source, features_is_dir, r),
{
    match source {
        None => Err(KaizenError::ChezmoidataTargetUnknown),
        Some(s) => {
            if features_is_dir {
                Ok(s)
            } else {
                Err(KaizenError::FeaturesDirNotFound { path: features_dir_of(s.as_str()) })
            }
        },
    }
}

/// The outcome of a re-initialisation once `init` succeeded, from the
/// source chezmoi then reports: the new source with `backup_path`; no
/// source is `ChezmoidataTargetUnknown`; an error of the client is passed
/// on.
pub open spec fn reinit_result(
    source: Result<Option<String>, KaizenError>,
    backup_path: String,
    r: Result<(String, String), KaizenError>,
) -> bool {
    match source {
        Ok(Some(s)) => r == Ok::<(String, String), KaizenError>((s, backup_path)),
        Ok(None) => r matches Err(KaizenError::ChezmoidataTargetUnknown),
        Err(e) => r == Err::<(String, String), KaizenError>(e),
    }
}

/// `reinit_result`.
pub fn reinit_outcome(source: Result<Option<String>, KaizenError>, backup_path: String) -> (r: Result<
    (String, String),
    KaizenError,
>)
    ensures
        reinit_result(source, backup_path, r),
{
    match source {
        Err(e) => Err(e),
        Ok(None) => Err(KaizenError::ChezmoidataTargetUnknown),
        Ok(Some(s)) => Ok((s, backup_path)),
    }
}

/// `r` is the status `check` gives from the client's answers: the source
/// (`source`); for an existing source, the remote of that source
/// (`source_remote`); else the reported source (`reported`) and the remote
/// of its repository root (`root_remote`). An error of the client is
/// passed on.
pub open spec fn checked_from<C: ChezmoiClient + ?Sized>(
    client: &C,
    url: Seq<char>,
    source: Result<Option<String>, KaizenError>,
    source_remote: Result<Option<String>, KaizenError>,
    reported: Result<Option<String>, KaizenError>,
    root_remote: Result<Option<String>, KaizenError>,
    r: Result<BootstrapStatus, KaizenError>,
) -> bool {
    client.answers_source(source) && match source {
        Err(e) => r == Err::<BootstrapStatus, KaizenError>(e),
        Ok(Some(s)) => client.answers_remote(s@, source_remote) && match source_remote {
            Err(e) => r == Err::<BootstrapStatus, KaizenError>(e),
            Ok(rem) => r == Ok::<BootstrapStatus, KaizenError>(source_status(s, rem, url)),
        },
        Ok(None) => client.answers_raw_source(reported) && match reported {
            Err(e) => r == Err::<BootstrapStatus, KaizenError>(e),
            Ok(None) => r == Ok::<BootstrapStatus, KaizenError>(BootstrapStatus::InitRequired),
            Ok(Some(q)) => client.answers_remote(root_of(q@), root_remote) && match root_remote {
                Err(e) => r == Err::<BootstrapStatus, KaizenError>(e),
                Ok(rem) => r is Ok && exists|root: String|
                    root@ == root_of(q@) && r->Ok_0 == #[trigger] reported_status(root, q, rem, url),
            },
        },
    }
}

/// `r` is what `init` gives from the answers: the client's answer to
/// `init_source(url)` (`init`), then to `source_path` (`source`), then the
/// filesystem's answer to whether that source's `kaizen/features` is a
/// directory (`features_is_dir`), as `init_result` takes them. An error of
/// the client is passed on.
pub open spec fn init_from<C: ChezmoiClient + ?Sized, F: FileSystem + ?Sized>(
    client: &C,
    fs: &F,
    url: Seq<char>,
    init: Result<(), KaizenError>,
    source: Result<Option<String>, KaizenError>,
    features_is_dir: bool,
    r: Result<String, KaizenError>,
) -> bool {
    client.answers_init(url, init) && match init {
        Err(e) => r == Err::<String, KaizenError>(e),
        Ok(_) => client.answers_source(source) && match source {
            Err(e) => r == Err::<String, KaizenError>(e),
            Ok(s) => (s is Some ==> fs.answers_is_dir(features_dir_under(s->0@), features_is_dir)) && init_result(
                s,
                features_is_dir,
                r,
            ),
        },
    }
}

/// Orchestrates chezmoi source initialisation, backup, and rollback. The
/// caller asks the user before the destructive operations.
pub struct ChezmoiBootstrapper {
    /// The chezmoi client it asks.
    pub client: Box<dyn ChezmoiClient>,
    /// The filesystem it asks.
    pub fs: Box<dyn FileSystem>,
}

impl ChezmoiBootstrapper {
    /// A bootstrapper that works with `client` and `fs`.
    pub fn new(client: Box<dyn ChezmoiClient>, fs: Box<dyn FileSystem>) -> Self {
        ChezmoiBootstrapper { client, fs }
    }

    /// Inspect the chezmoi source against `url` and return the action
    /// required (`checked_from` of the client's answers): the status of the
    /// existing source under its own remote, else of the reported source
    /// under the remote of its repository root, else `InitRequired`.
    pub fn check(&self, url: &str) -> (r: Result<BootstrapStatus, KaizenError>)
        ensures
            exists|
                source: Result<Option<String>, KaizenError>,
                source_remote: Result<Option<String>, KaizenError>,
                reported: Result<Option<String>, KaizenError>,
                root_remote: Result<Option<String>, KaizenError>,
            | #[trigger] checked_from(&*self.client, url@, source, source_remote, reported, root_remote, r),
    {
        let none: Result<Option<String>, KaizenError> = Ok(None);
        let answer = self.client.source_path();
        let ghost a0 = answer;
        let source = match answer {
            Err(e) => {
                let r = Err(e);
                assert(checked_from(&*self.client, url@, a0, none, none, none, r));
                return r;
            },
            Ok(s) => s,
        };
        if let Some(src) = source {
            let answer = self.client.current_remote(src.as_str());
            let ghost a1 = answer;
            let remote = match answer {
                Err(e) => {
                    let r = Err(e);
                    assert(checked_from(&*self.client, url@, a0, a1, none, none, r));
                    return r;
                },
                Ok(r) => r,
            };
            let r = Ok(bootstrap_status(Some(src), remote, None, None, url));
            assert(checked_from(&*self.client, url@, a0, a1, none, none, r));
            return r;
        }
        let answer = self.client.raw_source_path();
        let ghost a2 = answer;
        let reported = match answer {
            Err(e) => {
                let r = Err(e);
                assert(checked_from(&*self.client, url@, a0, none, a2, none, r));
                return r;
            },
            Ok(r) => r,
        };
        let ghost a3: Result<Option<String>, KaizenError> = Ok(None);
        let root_remote = match &reported {
            None => None,
            Some(q) => {
                let root = repository_root(q.as_str());
                let answer = self.client.current_remote(root.as_str());
                proof {
                    a3 = answer;
                }
                match answer {
                    Err(e) => {
                        let r = Err(e);
                        assert(checked_from(&*self.client, url@, a0, none, a2, a3, r));
                        return r;
                    },
                    Ok(r) => r,
                }
            },
        };
        let st = bootstrap_status(None, None, reported, root_remote, url);
        let r = Ok(st);
        proof {
            if reported is Some {
                let root = choose|root: String| root@ == root_of(reported->0@) && st == reported_status(root, reported->0, root_remote, url@);
                assert(r->Ok_0 == reported_status(root, reported->0, root_remote, url@));
            }
        }
        assert(checked_from(&*self.client, url@, a0, none, a2, a3, r));
        r
    }

    /// Back up `existing`, run `init`, and return the new source directory
    /// and the backup path the client gave (`reinit_outcome` of the source
    /// the client then reports); when `init` fails the backup is moved back
    /// and its error passed on, as is an error of the backup.
    pub fn backup_and_reinit(&self, url: &str, existing: &str) -> (r: Result<(String, String), KaizenError>)
        ensures
            exists|backup: Result<SourceBackup, KaizenError>|
                #[trigger] self.client.answers_backup(existing@, backup) && match backup {
                    Err(e) => r == Err::<(String, String), KaizenError>(e),
                    Ok(b) => exists|
                        init: Result<(), KaizenError>,
                        init_source: Result<Option<String>, KaizenError>,
                        features_is_dir: bool,
                        init_r: Result<String, KaizenError>,
                    |
                        #[trigger] init_from(&*self.client, &*self.fs, url@, init, init_source, features_is_dir, init_r)
                            && match init_r {
                            Err(e) => r == Err::<(String, String), KaizenError>(e),
                            Ok(_) => exists|source: Result<Option<String>, KaizenError>|
                                #[trigger] self.client.answers_source(source) && reinit_result(source, b.backup_path, r),
                        },
                },
    {
        let answer = self.client.backup_source_dir(existing);
        let ghost b0 = answer;
        let backup = match answer {
            Err(e) => {
                return Err(e);
            },
            Ok(b) => b,
        };
        let ghost bp = backup.backup_path;
        let init_r = self.init(url);
        let ghost ir = init_r;
        match init_r {
            Err(e) => {
                let _ = self.fs.rename(backup.backup_path.as_str(), backup.restore_path.as_str());
                return Err(e);
            },
            Ok(_) => {},
        }
        let source = self.client.source_path();
        let ghost sr = source;
        let r = reinit_outcome(source, backup.backup_path);
        assert(self.client.answers_source(sr) && reinit_result(sr, bp, r));
        r
    }

    /// Run `chezmoi init <url>` and check that the new source has
    /// `kaizen/features` (`init_from` of the answers): the source
    /// directory, or the error `init_result` gives; an error of the client
    /// is passed on.
    pub fn init(&self, url: &str) -> (r: Result<String, KaizenError>)
        ensures
            exists|
                init: Result<(), KaizenError>,
                source: Result<Option<String>, KaizenError>,
                features_is_dir: bool,
            | #[trigger] init_from(&*self.client, &*self.fs, url@, init, source, features_is_dir, r),
    {
        let none: Result<Option<String>, KaizenError> = Ok(None);
        let answer = self.client.init_source(url);
        let ghost a0 = answer;
        match answer {
            Err(e) => {
                let r = Err(e);
                assert(init_from(&*self.client, &*self.fs, url@, a0, none, false, r));
                return r;
            },
            Ok(_) => {},
        }
        let answer = self.client.source_path();
        let ghost a1 = answer;
        let source = match answer {
            Err(e) => {
                let r = Err(e);
                assert(init_from(&*self.client, &*self.fs, url@, a0, a1, false, r));
                return r;
            },
            Ok(s) => s,
        };
        let features_is_dir = match &source {
            None => false,
            Some(s) => {
                let features_dir = features_dir_of(s.as_str());
                self.fs.is_dir(features_dir.as_str())
            },
        };
        let r = init_outcome(source, features_is_dir);
        assert(init_from(&*self.client, &*self.fs, url@, a0, a1, features_is_dir, r));
        r
    }
}

/// The features directory for a known chezmoi `source_dir`: `explicit` when
/// given, else `kaizen/features` under the source, whether or not it exists.
pub fn resolve_features_dir_from_source(explicit: Option<&str>, source_dir: &str, fs: &dyn FileSystem) -> (r:
    String)
    ensures
        explicit matches Some(d) ==> r@ == d@,
        explicit is None ==> r@ == features_dir_under(source_dir@),
{
    match explicit {
        Some(d) => String::from_str(d),
        None => features_dir_of(source_dir),
    }
}

} // verus!
