//! Interface to the filesystem. Paths are Unix paths held as strings.
use vstd::prelude::*;

use crate::error::KaizenError;

verus! {

pub trait FileSystem {
    fn read_to_string(&self, path: &str) -> Result<String, KaizenError>;

    /// The filesystem's answer `answer` to a listing of `path`. An
    /// implementation may say which answers it gives; by default any answer
    /// may come back.
    closed spec fn answers_listing(&self, path: Seq<char>, answer: Result<Vec<String>, KaizenError>) -> bool {
        true
    }

    /// Paths of the entries of a directory.
    fn read_dir_paths(&self, path: &str) -> (r: Result<Vec<String>, KaizenError>)
        ensures
            self.answers_listing(path@, r),
    ;

    /// The filesystem's answer `answer` to whether anything is at `path`.
    /// An implementation may say which answers it gives; by default any
    /// answer may come back.
    closed spec fn answers_exists(&self, path: Seq<char>, answer: bool) -> bool {
        true
    }

    /// Whether anything is at `path` (`Path::exists`).
    fn path_exists(&self, path: &str) -> (r: bool)
        ensures
            self.answers_exists(path@, r),
    ;

    /// The filesystem's answer `answer` to whether `path` is a directory. An
    /// implementation may say which answers it gives; by default any answer
    /// may come back.
    closed spec fn answers_is_dir(&self, path: Seq<char>, answer: bool) -> bool {
        true
    }

    /// Whether `path` is a directory.
    fn is_dir(&self, path: &str) -> (r: bool)
        ensures
            self.answers_is_dir(path@, r),
    ;

    fn write(&self, path: &str, content: &[u8]) -> Result<(), KaizenError>;

    fn create_dir_all(&self, path: &str) -> Result<(), KaizenError>;

    fn rename(&self, from: &str, to: &str) -> Result<(), KaizenError>;

    fn remove_file(&self, path: &str) -> Result<(), KaizenError>;

    fn remove_dir_all(&self, path: &str) -> Result<(), KaizenError>;
}

} // verus!
