//! The configuration of one traversal.

use crate::report::TraversalError;
use vstd::prelude::*;

verus! {

/// What to do about a child that could not be read.
#[derive(Clone, Copy, Debug, PartialEq, Eq, Structural)]
pub enum ErrorBehavior {
    /// Pass over the error in silence and go on.
    Ignore,
    /// Treat the error as fatal: the traversal stops and the caller gets the
    /// error.
    Panic,
    /// Go on, and hand the caller a notice of the error to show.
    Log,
}

/// The configuration of one traversal. A traversal only reads it.
pub struct FileFinderConfig<'a, F, S> {
    /// The directory to walk; the current directory when there is none.
    pub dir: Option<&'a str>,
    /// Which files to keep, judged by their path; all of them when there is
    /// no filter. Directories are never judged by it.
    pub filter: Option<F>,
    /// Which directories the walker must not descend into, judged by their
    /// path; none when there is no such predicate.
    pub skipped_dirs: Option<S>,
    /// What to do about children that could not be read.
    pub err_behavior: ErrorBehavior,
}

/// A predicate on paths that can be asked about every path and never gives
/// two answers for one.
pub open spec fn is_pure<P: Fn(&String) -> bool>(pred: P) -> bool {
    &&& forall|path: &String| #[trigger] call_requires(pred, (path,))
    &&& forall|path: &String|
        !(#[trigger] call_ensures(pred, (path,), true) && call_ensures(pred, (path,), false))
}

impl<'a, F: Fn(&String) -> bool, S: Fn(&String) -> bool> FileFinderConfig<'a, F, S> {
    /// The configuration is usable: its predicates are pure.
    pub open spec fn wf(&self) -> bool {
        &&& self.filter matches Some(f) ==> is_pure(f)
        &&& self.skipped_dirs matches Some(s) ==> is_pure(s)
    }

    /// Whether a file with this path stays in the listing: there is no
    /// filter, or the filter says yes to the path.
    pub open spec fn keeps(&self, path: &String) -> bool {
        match self.filter {
            Some(f) => call_ensures(f, (path,), true),
            None => true,
        }
    }

    /// Whether the filter says no to this path.
    pub open spec fn rejects(&self, path: &String) -> bool {
        match self.filter {
            Some(f) => call_ensures(f, (path,), false),
            None => false,
        }
    }

    /// Whether a directory with this path is closed to the walker: there is
    /// a skip predicate, and it says yes to the path.
    pub open spec fn prunes(&self, path: &String) -> bool {
        match self.skipped_dirs {
            Some(s) => call_ensures(s, (path,), true),
            None => false,
        }
    }

    /// Whether there is no skip predicate, or it says no to this path.
    pub open spec fn spares(&self, path: &String) -> bool {
        match self.skipped_dirs {
            Some(s) => call_ensures(s, (path,), false),
            None => true,
        }
    }

    /// The directory that the traversal starts from, given the current
    /// directory if there is one.
    pub open spec fn spec_root(&self, cwd: Option<String>) -> Result<Seq<char>, TraversalError> {
        match (self.dir, cwd) {
            (Some(dir), _) => Ok(dir@),
            (None, Some(cwd)) => Ok(cwd@),
            (None, None) => Err(TraversalError::RootUnresolved),
        }
    }

    /// Asks the filter about a path. The answer is the one answer the
    /// filter has for the path.
    pub fn keeps_path(&self, path: &String) -> (kept: bool)
        requires
            self.wf(),
        ensures
            kept == self.keeps(path),
            kept != self.rejects(path),
    {
        match &self.filter {
            Some(f) => f(path),
            None => true,
        }
    }

    /// Asks the skip predicate about a path. The answer is the one answer
    /// the predicate has for the path.
    pub fn prunes_path(&self, path: &String) -> (pruned: bool)
        requires
            self.wf(),
        ensures
            pruned == self.prunes(path),
            pruned != self.spares(path),
    {
        match &self.skipped_dirs {
            Some(s) => s(path),
            None => false,
        }
    }

    /// Resolves the directory to start from. The configured directory wins;
    /// the current directory stands in when none is configured; with neither
    /// there is nothing to walk.
    pub fn root(&self, cwd: Option<String>) -> (root: Result<String, TraversalError>)
        ensures
            root is Ok <==> self.spec_root(cwd) is Ok,
            root is Ok ==> root->Ok_0@ == self.spec_root(cwd)->Ok_0,
            root is Err ==> root->Err_0 == self.spec_root(cwd)->Err_0,
    {
        match self.dir {
            Some(dir) => Ok(dir.to_owned()),
            None => match cwd {
                Some(cwd) => Ok(cwd),
                None => Err(TraversalError::RootUnresolved),
            },
        }
    }
}

} // verus!
