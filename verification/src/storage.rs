//! Where a project's sources, builds and packages lie.
use crate::path::{join_path, path_join};
use crate::text::{cat2, cat3, opt_view};
use vstd::prelude::*;
use vstd::string::*;

verus! {

broadcast use vstd::string::group_string_axioms;

/// The file that is written last into an installed package: without it the package is left over
/// from a build or an unpacking that did not end.
pub const INSTALL_MARKER: &'static str = ".unideps-complete";

/// The directories of a storage.
#[derive(Debug)]
pub struct StorageManager {
    pub base_dir: String,
    pub scratch_override: Option<String>,
}

impl StorageManager {
    /// The storage under `base_dir`.
    pub fn new(base_dir: String) -> (r: Self)
        ensures
            r.base_dir@ == base_dir@,
            r.scratch_override is None,
    {
        StorageManager { base_dir, scratch_override: None }
    }

    /// The same storage with its scratch directory elsewhere.
    pub fn with_scratch_dir(self, scratch: Option<String>) -> (r: Self)
        ensures
            r.base_dir@ == self.base_dir@,
            opt_view(r.scratch_override) == opt_view(scratch),
    {
        StorageManager { base_dir: self.base_dir, scratch_override: scratch }
    }

    pub fn base_dir(&self) -> (r: &str)
        ensures
            r@ == self.base_dir@,
    {
        self.base_dir.as_str()
    }

    /// A directory of the storage.
    pub open spec fn dir(&self, name: Seq<char>) -> Seq<char> {
        path_join(self.base_dir@, name)
    }

    pub fn cache_dir(&self) -> (r: String)
        ensures
            r@ == self.dir("cache"@),
    {
        join_path(self.base_dir.as_str(), "cache")
    }

    pub fn installed_dir(&self) -> (r: String)
        ensures
            r@ == self.dir("installed"@),
    {
        join_path(self.base_dir.as_str(), "installed")
    }

    /// The scratch directory: the one that was chosen, else one of the storage.
    pub open spec fn scratch(&self) -> Seq<char> {
        match self.scratch_override {
            Some(d) => d@,
            None => self.dir("scratch"@),
        }
    }

    pub fn scratch_dir(&self) -> (r: String)
        ensures
            r@ == self.scratch(),
    {
        match &self.scratch_override {
            Some(d) => d.clone(),
            None => join_path(self.base_dir.as_str(), "scratch"),
        }
    }

    pub fn sources_dir(&self) -> (r: String)
        ensures
            r@ == self.dir("sources"@),
    {
        join_path(self.base_dir.as_str(), "sources")
    }

    pub fn logs_dir(&self) -> (r: String)
        ensures
            r@ == self.dir("logs"@),
    {
        join_path(self.base_dir.as_str(), "logs")
    }

    pub fn resolved_dir(&self) -> (r: String)
        ensures
            r@ == self.dir("resolved"@),
    {
        join_path(self.base_dir.as_str(), "resolved")
    }

    pub fn locks_dir(&self) -> (r: String)
        ensures
            r@ == self.dir("locks"@),
    {
        join_path(self.base_dir.as_str(), "locks")
    }

    /// The lock of a package that is being installed into `dir_name`.
    pub fn package_lock_path(&self, dir_name: &str) -> (r: String)
        ensures
            r@ == path_join(self.dir("locks"@), dir_name@ + ".lock"@),
    {
        let dir = self.locks_dir();
        let file = cat2(dir_name, ".lock");
        join_path(dir.as_str(), file.as_str())
    }

    /// The lock of the checkout `dir_name`, so that two runs never fetch into it at once.
    pub fn source_lock_path(&self, dir_name: &str) -> (r: String)
        ensures
            r@ == path_join(self.dir("locks"@), "src-"@ + dir_name@ + ".lock"@),
    {
        let dir = self.locks_dir();
        let file = cat3("src-", dir_name, ".lock");
        join_path(dir.as_str(), file.as_str())
    }

    pub fn global_build_lock_path(&self) -> (r: String)
        ensures
            r@ == path_join(self.dir("locks"@), "build.lock"@),
    {
        let dir = self.locks_dir();
        join_path(dir.as_str(), "build.lock")
    }

    /// The marker of the package installed in `install_dir`.
    pub fn marker_path(install_dir: &str) -> (r: String)
        ensures
            r@ == path_join(install_dir@, INSTALL_MARKER@),
    {
        join_path(install_dir, INSTALL_MARKER)
    }

    /// The directories that a storage consists of, in the order in which they are made.
    pub fn ensure_dirs(&self) -> (r: Vec<String>)
        ensures
            crate::text::views(r@) == seq![
                self.dir("cache"@),
                self.dir("installed"@),
                self.dir("sources"@),
                self.scratch(),
                self.dir("logs"@),
                self.dir("locks"@),
                self.dir("resolved"@),
            ],
    {
        let mut out: Vec<String> = Vec::new();
        out.push(self.cache_dir());
        out.push(self.installed_dir());
        out.push(self.sources_dir());
        out.push(self.scratch_dir());
        out.push(self.logs_dir());
        out.push(self.locks_dir());
        out.push(self.resolved_dir());
        assert(crate::text::views(out@) =~= seq![
            self.dir("cache"@),
            self.dir("installed"@),
            self.dir("sources"@),
            self.scratch(),
            self.dir("logs"@),
            self.dir("locks"@),
            self.dir("resolved"@),
        ]);
        out
    }
}

/// Everything in the storage lies below its directory, under a name of its own, but for scratch
/// space that was put elsewhere.
pub proof fn everything_lies_below_the_storage(s: StorageManager, name: Seq<char>)
    ensures
        s.dir(name) == path_join(s.base_dir@, name),
        s.scratch_override matches Some(d) ==> s.scratch() == d@,
        s.scratch_override is None ==> s.scratch() == path_join(s.base_dir@, "scratch"@),
{
}

} // verus!
