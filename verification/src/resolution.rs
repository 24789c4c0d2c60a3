//! What a package's own manifest resolved to, remembered beside the installed packages.
//!
//! Only the source of a package says whether it carries a manifest of its own, and only a CMake
//! run on it says which dependencies of that manifest are enabled. A record of the outcome, under
//! the identity that the build would have without them, spares both in later runs. A record that
//! holds a package whose source moves would freeze it, so such an outcome is not recorded.
use crate::git::ref_of;
use crate::node::{DependencyNode, NodeView};
use crate::path::{join_path, lies_below, path_join, path_starts_with};
use crate::storage::StorageManager;
use crate::text::{cat3, cat4, cat7, decimal, decimal_text, same};
use vstd::prelude::*;
use vstd::string::*;

verus! {

broadcast use vstd::string::group_string_axioms;

/// The meaning of the fields of a record; a record of another version is not used.
pub const FORMAT_VERSION: u32 = 2;

/// What a package's manifest resolved to: the identity that its build got, and every package that
/// its manifest pulled in.
#[derive(Debug)]
pub struct Resolution {
    pub version: u32,
    pub name: String,
    pub build_id: String,
    pub nested: Vec<DependencyNode>,
}

/// Packages as views.
pub open spec fn nodes_view(v: Seq<DependencyNode>) -> Seq<NodeView> {
    v.map_values(|n: DependencyNode| n@)
}

/// Whether the source of a package is the same in every run: it is neither a local path nor a
/// repository at a branch or its default HEAD.
pub open spec fn stays_put(n: NodeView) -> bool {
    n.path is None && (n.git is None || n.commit is Some || n.tag is Some)
}

/// A repository stays put exactly at a revision that does not move.
pub proof fn repositories_stay_put_at_pins(n: NodeView)
    requires
        n.git is Some,
        n.path is None,
    ensures
        stays_put(n) <==> !(ref_of(n.commit, n.tag, n.branch) is Branch || ref_of(
            n.commit,
            n.tag,
            n.branch,
        ) is DefaultHead),
{
}

/// Whether an outcome that holds `node` may be recorded.
pub fn is_recordable(node: &DependencyNode) -> (r: bool)
    ensures
        r == stays_put(node@),
{
    node.path.is_none() && (node.git.is_none() || node.commit.is_some() || node.tag.is_some())
}

/// What has to hold of a prefix that a record names: it is a finished install, or it exists, or it
/// cannot hold because there is no prefix.
#[derive(Debug)]
pub enum PrefixCheck {
    Installed(String),
    Exists(String),
    Never,
}

/// What has to hold of a prefix, as texts.
pub enum CheckView {
    Installed(Seq<char>),
    Exists(Seq<char>),
    Never,
}

impl View for PrefixCheck {
    type V = CheckView;

    open spec fn view(&self) -> CheckView {
        match self {
            PrefixCheck::Installed(p) => CheckView::Installed(p@),
            PrefixCheck::Exists(p) => CheckView::Exists(p@),
            PrefixCheck::Never => CheckView::Never,
        }
    }
}

/// Checks as views.
pub open spec fn checks_view(v: Seq<PrefixCheck>) -> Seq<CheckView> {
    v.map_values(|c: PrefixCheck| c@)
}

/// What has to hold of the prefix of a nested package: a prefix in the storage is a finished
/// install; one elsewhere is only ever asked to exist.
pub open spec fn nested_check(prefix: Option<Seq<char>>, installed_dir: Seq<char>) -> CheckView {
    match prefix {
        Some(p) => if lies_below(p, installed_dir) {
            CheckView::Installed(p)
        } else {
            CheckView::Exists(p)
        },
        None => CheckView::Never,
    }
}

/// What has to hold for a record to be used, the package itself first.
pub open spec fn checks_of(
    name: Seq<char>,
    build_id: Seq<char>,
    nested: Seq<NodeView>,
    installed_dir: Seq<char>,
) -> Seq<CheckView> {
    seq![CheckView::Installed(path_join(installed_dir, name + "-"@ + build_id))] + nested.map_values(
        |n: NodeView| nested_check(n.install_prefix, installed_dir),
    )
}

/// Whether every check came out well, given the answers in the order of the checks.
pub open spec fn all_hold(checks: Seq<CheckView>, answers: Seq<bool>) -> bool {
    checks.len() == answers.len() && forall|i: int|
        0 <= i < checks.len() ==> !(#[trigger] checks[i] is Never) && answers[i]
}

impl Resolution {
    /// A record of the current version.
    pub fn new(name: &str, build_id: &str, nested: Vec<DependencyNode>) -> (r: Self)
        ensures
            r.version == FORMAT_VERSION,
            r.name@ == name@,
            r.build_id@ == build_id@,
            r.nested@ == nested@,
    {
        Resolution {
            version: FORMAT_VERSION,
            name: name.to_owned(),
            build_id: build_id.to_owned(),
            nested,
        }
    }

    /// Where the record of a package lies whose build would be `plain_id` without its manifest.
    pub fn path(storage: &StorageManager, name: &str, plain_id: &str) -> (r: String)
        ensures
            r@ == path_join(storage.dir("resolved"@), name@ + "-"@ + plain_id@ + ".json"@),
    {
        let dir = storage.resolved_dir();
        let file = cat4(name, "-", plain_id, ".json");
        join_path(dir.as_str(), file.as_str())
    }

    /// Where process `pid` writes a record before it is put into place.
    pub fn temp_path(&self, storage: &StorageManager, plain_id: &str, pid: u32) -> (r: String)
        ensures
            r@ == path_join(
                storage.dir("resolved"@),
                "."@ + self.name@ + "-"@ + plain_id@ + "."@ + decimal(pid as nat) + ".tmp"@,
            ),
    {
        let dir = storage.resolved_dir();
        let number = decimal_text(pid as u64);
        let file = cat7(
            ".",
            self.name.as_str(),
            "-",
            plain_id,
            ".",
            number.as_str(),
            ".tmp",
        );
        join_path(dir.as_str(), file.as_str())
    }

    /// What has to hold for the record to be used.
    pub fn prefix_checks(&self, storage: &StorageManager) -> (r: Vec<PrefixCheck>)
        ensures
            checks_view(r@) == checks_of(
                self.name@,
                self.build_id@,
                nodes_view(self.nested@),
                storage.dir("installed"@),
            ),
    {
        let installed = storage.installed_dir();
        let own = cat3(self.name.as_str(), "-", self.build_id.as_str());
        let own_path = join_path(installed.as_str(), own.as_str());
        let mut out: Vec<PrefixCheck> = Vec::new();
        out.push(PrefixCheck::Installed(own_path));
        let ghost all = checks_of(
            self.name@,
            self.build_id@,
            nodes_view(self.nested@),
            storage.dir("installed"@),
        );
        let mut i: usize = 0;
        while i < self.nested.len()
            invariant
                i <= self.nested@.len(),
                installed@ == storage.dir("installed"@),
                all == checks_of(
                    self.name@,
                    self.build_id@,
                    nodes_view(self.nested@),
                    storage.dir("installed"@),
                ),
                out@.len() == i + 1,
                forall|k: int| 0 <= k < out@.len() ==> (#[trigger] out@[k])@ == all[k],
            decreases self.nested@.len() - i,
        {
            let check = match &self.nested[i].install_prefix {
                Some(p) => if path_starts_with(p.as_str(), installed.as_str()) {
                    PrefixCheck::Installed(p.clone())
                } else {
                    PrefixCheck::Exists(p.clone())
                },
                None => PrefixCheck::Never,
            };
            assert(nodes_view(self.nested@)[i as int] == self.nested@[i as int]@);
            assert(check@ == all[i + 1]);
            out.push(check);
            i = i + 1;
        }
        assert(checks_view(out@) =~= all);
        out
    }

    /// Whether every prefix that the record names is still there, given the answers to its checks.
    pub fn prefixes_are_intact(checks: &[PrefixCheck], answers: &[bool]) -> (r: bool)
        ensures
            r == all_hold(checks_view(checks@), answers@),
    {
        if checks.len() != answers.len() {
            return false;
        }
        let mut i: usize = 0;
        while i < checks.len()
            invariant
                i <= checks@.len() == answers@.len(),
                forall|k: int|
                    0 <= k < i ==> !(#[trigger] checks_view(checks@)[k] is Never) && answers@[k],
            decreases checks@.len() - i,
        {
            assert(checks_view(checks@)[i as int] == checks@[i as int]@);
            let never = match &checks[i] {
                PrefixCheck::Never => true,
                _ => false,
            };
            if never || !answers[i] {
                return false;
            }
            i = i + 1;
        }
        true
    }

    /// The record, where it can be used for the package `name`: it is of this version, it is that
    /// package's, and its prefixes are intact.
    pub fn load(record: Resolution, name: &str, intact: bool) -> (r: Option<Self>)
        ensures
            match r {
                Some(rec) => rec == record && record.version == FORMAT_VERSION && record.name@
                    == name@ && intact,
                None => record.version != FORMAT_VERSION || record.name@ != name@ || !intact,
            },
    {
        if record.version != FORMAT_VERSION || !same(record.name.as_str(), name) || !intact {
            None
        } else {
            Some(record)
        }
    }

    /// The message for a record that could not be written.
    pub fn store_failure(&self, cause: &str) -> (r: String)
        ensures
            r@ == "Failed to record the resolution of '"@ + self.name@ + "': "@ + cause@,
    {
        cat4("Failed to record the resolution of '", self.name.as_str(), "': ", cause)
    }
}

/// What a package was resolved to is worth recording where its source cannot change by itself: not
/// for a directory, and of a repository only at a commit or a tag.
pub proof fn what_is_worth_recording(n: NodeView)
    ensures
        n.path is Some ==> !stays_put(n),
        n.path is None && n.git is None ==> stays_put(n),
        n.path is None && n.git is Some ==> (stays_put(n) <==> n.commit is Some || n.tag is Some),
{
}

/// A record holds as long as the package and everything nested in it is still installed: what lies
/// among the installed packages must be marked so, anything else must exist, and what never got a
/// place makes the record useless.
pub proof fn a_record_holds_while_everything_is_installed(
    name: Seq<char>,
    build_id: Seq<char>,
    nested: Seq<NodeView>,
    installed_dir: Seq<char>,
    answers: Seq<bool>,
    i: int,
)
    requires
        0 <= i < nested.len(),
    ensures
        ({
            let checks = checks_of(name, build_id, nested, installed_dir);
            let p = nested[i].install_prefix;
            &&& checks.len() == nested.len() + 1
            &&& checks[0] == CheckView::Installed(
                path_join(installed_dir, name + "-"@ + build_id),
            )
            &&& p is Some && lies_below(p->0, installed_dir) ==> checks[i + 1]
                == CheckView::Installed(p->0)
            &&& p is Some && !lies_below(p->0, installed_dir) ==> checks[i + 1]
                == CheckView::Exists(p->0)
            &&& p is None ==> !all_hold(checks, answers)
            &&& all_hold(checks, answers) ==> answers[0] && answers[i + 1]
        }),
{
    let checks = checks_of(name, build_id, nested, installed_dir);
    assert(checks[i + 1] == nested_check(nested[i].install_prefix, installed_dir));
    if all_hold(checks, answers) {
        assert(!(checks[0] is Never) && answers[0]);
        assert(!(checks[i + 1] is Never) && answers[i + 1]);
    }
}

} // verus!
