//! The sources of packages: where they are checked out, and how patched copies of them are made.
use crate::git::{as_str_opt, ref_of, GitRef, RefView};
use crate::hash::{id_of, lemma_middle, HashCalculator};
use crate::node::{DependencyNode, NodeView};
use crate::path::{file_name, file_name_of, is_abs, join_path, path_eq, path_join, same_path};
use crate::storage::StorageManager;
use crate::strategy::or_kept;
use crate::text::{
    cat2, cat3, cat4, cat5, cat7, chars_of, decimal, decimal_text, is_digit, is_letter, same,
    text_of, views,
};
use vstd::prelude::*;
use vstd::string::*;
use vstd::utf8::encode_utf8;

verus! {

broadcast use vstd::string::group_string_axioms;

/// The revision of a package.
pub open spec fn node_ref(n: NodeView) -> RefView {
    ref_of(n.commit, n.tag, n.branch)
}

/// The revision of a package.
pub fn git_ref(node: &DependencyNode) -> (r: GitRef<'_>)
    ensures
        r@ == node_ref(node@),
{
    GitRef::from_parts(
        as_str_opt(&node.commit),
        as_str_opt(&node.tag),
        as_str_opt(&node.branch),
    )
}

/// `c`, or `_` where it should not stand in a file name.
pub open spec fn safe_char(c: char) -> char {
    if is_digit(c) || is_letter(c) || c == '.' || c == '-' || c == '_' {
        c
    } else {
        '_'
    }
}

/// `s` with `_` for everything that should not stand in a file name.
pub open spec fn sanitized(s: Seq<char>) -> Seq<char> {
    s.map_values(|c: char| safe_char(c))
}

/// `s` with `_` for everything that should not stand in a file name.
pub fn sanitize(s: &str) -> (r: String)
    ensures
        r@ == sanitized(s@),
{
    let cs = chars_of(s);
    let mut out = String::new();
    let mut i: usize = 0;
    assert(out@ =~= sanitized(s@).take(0));
    while i < cs.len()
        invariant
            i <= cs@.len(),
            cs@ == s@,
            out@ == sanitized(s@).take(i as int),
        decreases cs@.len() - i,
    {
        let c = cs[i];
        let d = if ('0' <= c && c <= '9') || ('a' <= c && c <= 'z') || ('A' <= c && c <= 'Z') || c
            == '.' || c == '-' || c == '_' {
            c
        } else {
            '_'
        };
        out.push(d);
        assert(out@ =~= sanitized(s@).take(i + 1));
        i = i + 1;
    }
    assert(sanitized(s@).take(i as int) =~= sanitized(s@));
    out
}

/// The part of a checkout's name that stands for the revision.
pub open spec fn ref_part(r: RefView) -> Seq<char> {
    match r {
        RefView::Commit(c) => sanitized(
            if c.len() > 12 {
                c.take(12)
            } else {
                c
            },
        ),
        RefView::Tag(t) => sanitized(t),
        RefView::Branch(b) => "branch-"@ + sanitized(b),
        RefView::DefaultHead => "head"@,
    }
}

/// The part of a checkout's name that stands for the address of the repository.
pub open spec fn url_part(url: Seq<char>) -> Seq<char> {
    id_of(encode_utf8(url)).take(8)
}

/// The name of the checkout of a package.
pub open spec fn checkout_name(n: NodeView, url: Seq<char>) -> Seq<char> {
    n.name + "-"@ + ref_part(node_ref(n)) + "-"@ + url_part(url)
}

/// Packages of the same name and revision from different addresses have different checkouts,
/// unless the digests of the addresses begin alike.
pub proof fn different_addresses_have_different_checkouts(
    n: NodeView,
    a: Seq<char>,
    b: Seq<char>,
    sources: Seq<char>,
)
    requires
        url_part(a) != url_part(b),
    ensures
        path_join(sources, checkout_name(n, a)) != path_join(sources, checkout_name(n, b)),
{
    let head = n.name + "-"@ + ref_part(node_ref(n)) + "-"@;
    let x = head + url_part(a);
    let y = head + url_part(b);
    reveal_strlit("-");
    assert(head.len() > 0);
    assert(x[0] == head[0] && y[0] == head[0]);
    assert(is_abs(x) == is_abs(y));
    if path_join(sources, x) == path_join(sources, y) {
        let pre = if is_abs(x) {
            seq![]
        } else if sources.len() == 0 || sources.last() == '/' {
            sources
        } else {
            sources + seq!['/']
        };
        assert(path_join(sources, x) =~= (pre + head) + url_part(a) + seq![]);
        assert(path_join(sources, y) =~= (pre + head) + url_part(b) + seq![]);
        lemma_middle(pre + head, url_part(a), url_part(b), Seq::<char>::empty());
    }
}

/// The sources of a run. `synced` lists the checkouts that the run has already brought to the
/// wanted revision: a moving revision is looked up before hashing and used again by the build.
#[derive(Debug)]
pub struct Sources<'a> {
    pub storage: &'a StorageManager,
    pub synced: Vec<String>,
}

/// Where the source of a package comes from.
#[derive(Debug)]
pub enum BaseSource {
    /// A directory as it is.
    Ready(String),
    /// A checkout that this run has made; its commit is still worth confirming, since other runs
    /// share it.
    Confirm { dir: String },
    /// A checkout that is to be made.
    Checkout { url: String, dir: String },
}

/// Where a source comes from, as texts.
pub enum BaseView {
    Ready(Seq<char>),
    Confirm { dir: Seq<char> },
    Checkout { url: Seq<char>, dir: Seq<char> },
}

impl View for BaseSource {
    type V = BaseView;

    open spec fn view(&self) -> BaseView {
        match self {
            BaseSource::Ready(p) => BaseView::Ready(p@),
            BaseSource::Confirm { dir } => BaseView::Confirm { dir: dir@ },
            BaseSource::Checkout { url, dir } => BaseView::Checkout { url: url@, dir: dir@ },
        }
    }
}

/// Whether `dir` is among `dirs`.
pub open spec fn has_path(dirs: Seq<Seq<char>>, dir: Seq<char>) -> bool {
    exists|i: int| 0 <= i < dirs.len() && same_path(#[trigger] dirs[i], dir)
}

impl<'a> Sources<'a> {
    pub fn new(storage: &'a StorageManager) -> (r: Self)
        ensures
            *r.storage == *storage,
            r.synced@.len() == 0,
    {
        Sources { storage, synced: Vec::new() }
    }

    /// Where a package is checked out.
    pub open spec fn dir_for(&self, n: NodeView, url: Seq<char>) -> Seq<char> {
        path_join(self.storage.dir("sources"@), checkout_name(n, url))
    }

    /// The directory of a checkout. A digest of the address is part of its name, so that forks with
    /// the same name and revision do not share one.
    pub fn checkout_dir(&self, node: &DependencyNode, url: &str) -> (r: String)
        ensures
            r@ == self.dir_for(node@, url@),
    {
        let part = match git_ref(node) {
            GitRef::Commit(c) => {
                let cs = chars_of(c);
                let n: usize = cs.len();
                let shown = text_of(
                    &cs,
                    0,
                    if n > 12 {
                        12
                    } else {
                        n
                    },
                );
                proof {
                    assert(cs@.subrange(0, n as int) =~= c@);
                    if n > 12 {
                        assert(cs@.subrange(0, 12) =~= c@.take(12));
                    }
                }
                sanitize(shown.as_str())
            },
            GitRef::Tag(t) => sanitize(t),
            GitRef::Branch(b) => {
                let s = sanitize(b);
                cat2("branch-", s.as_str())
            },
            GitRef::DefaultHead => "head".to_owned(),
        };
        let id = HashCalculator::short_hash(url);
        let digits = chars_of(id.as_str());
        let url_hash = text_of(&digits, 0, 8);
        assert(digits@.subrange(0, 8) =~= id@.take(8));
        let name = cat5(node.name.as_str(), "-", part.as_str(), "-", url_hash.as_str());
        let sources = self.storage.sources_dir();
        join_path(sources.as_str(), name.as_str())
    }

    /// The lock that runs sharing a storage take turns with on one checkout.
    pub fn checkout_lock(&self, dir: &str) -> (r: String)
        ensures
            r@ == path_join(
                self.storage.dir("locks"@),
                "src-"@ + or_kept(file_name_of(dir@), ""@) + ".lock"@,
            ),
    {
        let name = match file_name(dir) {
            Some(n) => n,
            None => "".to_owned(),
        };
        self.storage.source_lock_path(name.as_str())
    }

    /// Notes that a checkout is at the wanted revision.
    pub fn record_checkout(&mut self, dir: String)
        ensures
            views(final(self).synced@) == views(old(self).synced@).push(dir@),
            *final(self).storage == *old(self).storage,
    {
        self.synced.push(dir);
        assert(views(self.synced@) =~= views(old(self).synced@).push(dir@));
    }

    fn is_synced(&self, dir: &str) -> (r: bool)
        ensures
            r == has_path(views(self.synced@), dir@),
    {
        let mut i: usize = 0;
        while i < self.synced.len()
            invariant
                i <= self.synced@.len(),
                forall|k: int| 0 <= k < i ==> !same_path(#[trigger] views(self.synced@)[k], dir@),
            decreases self.synced@.len() - i,
        {
            assert(views(self.synced@)[i as int] == self.synced@[i as int]@);
            if path_eq(self.synced[i].as_str(), dir) {
                return true;
            }
            i = i + 1;
        }
        false
    }

    /// What has to be checked out before a package is hashed: the address and the directory, for a
    /// revision that moves. Tags and commits are fetched only when building, so that they need no
    /// network where the result is already there.
    pub fn resolve_floating_ref(&self, node: &DependencyNode) -> (r: Option<(String, String)>)
        ensures
            match r {
                Some((url, dir)) => node@.path is None && node@.git == Some(url@) && (node_ref(
                    node@,
                ) is Branch || node_ref(node@) is DefaultHead) && dir@ == self.dir_for(node@, url@),
                None => node@.path is Some || node@.git is None || node_ref(node@) is Commit
                    || node_ref(node@) is Tag,
            },
    {
        if node.path.is_some() {
            return None;
        }
        match &node.git {
            None => None,
            Some(url) => {
                if !git_ref(node).is_floating() {
                    return None;
                }
                let dir = self.checkout_dir(node, url.as_str());
                Some((url.clone(), dir))
            },
        }
    }

    /// Where the source of a package comes from.
    pub fn base_source(&self, node: &DependencyNode) -> (r: Result<BaseSource, String>)
        ensures
            match (node@.path, node@.git) {
                (Some(p), _) => r matches Ok(b) && b@ == BaseView::Ready(p),
                (None, None) => r matches Err(m) && m@ == "'"@ + node@.name
                    + "' has no git URL or path"@,
                (None, Some(url)) => r matches Ok(b) && b@ == if has_path(
                    views(self.synced@),
                    self.dir_for(node@, url),
                ) {
                    BaseView::Confirm { dir: self.dir_for(node@, url) }
                } else {
                    BaseView::Checkout { url, dir: self.dir_for(node@, url) }
                },
            },
    {
        if let Some(p) = &node.path {
            return Ok(BaseSource::Ready(p.clone()));
        }
        match &node.git {
            None => Err(cat3("'", node.name.as_str(), "' has no git URL or path")),
            Some(url) => {
                let dir = self.checkout_dir(node, url.as_str());
                if self.is_synced(dir.as_str()) {
                    Ok(BaseSource::Confirm { dir })
                } else {
                    Ok(BaseSource::Checkout { url: url.clone(), dir })
                }
            },
        }
    }

    /// The work of making the patched copy of a source, `None` where no patch asks for one.
    pub fn prepared_source(
        &self,
        node: &DependencyNode,
        base: String,
        source_id: &str,
        pid: u64,
    ) -> (r: Option<PrepareJob>)
        ensures
            match r {
                None => node@.patches.len() == 0,
                Some(job) => node@.patches.len() > 0 && job@ == (PrepareView {
                    name: node@.name,
                    base: base@,
                    patches: node@.patches,
                    patched: path_join(
                        self.storage.dir("sources"@),
                        node@.name + "-"@ + source_id@,
                    ),
                    tmp: path_join(
                        self.storage.dir("sources"@),
                        "tmp-"@ + node@.name + "-"@ + source_id@ + "-"@ + decimal(pid as nat),
                    ),
                }),
            },
    {
        if node.patches.len() == 0 {
            return None;
        }
        let sources = self.storage.sources_dir();
        let name = cat3(node.name.as_str(), "-", source_id);
        let patched = join_path(sources.as_str(), name.as_str());
        let number = decimal_text(pid);
        let head = cat4("tmp-", node.name.as_str(), "-", source_id);
        let tmp_name = cat3(head.as_str(), "-", number.as_str());
        let tmp = join_path(sources.as_str(), tmp_name.as_str());
        let job = PrepareJob {
            name: node.name.clone(),
            base,
            patches: crate::text::copy_list(&node.patches),
            patched,
            tmp,
        };
        Some(job)
    }
}

/// The message for a checkout that could not be made.
pub fn fetch_failure(node: &DependencyNode, cause: &str) -> (r: String)
    ensures
        r@ == "Failed to fetch '"@ + node@.name + "': "@ + cause@,
{
    cat4("Failed to fetch '", node.name.as_str(), "': ", cause)
}

/// The message for a checkout whose commit could not be read.
pub fn read_failure(node: &DependencyNode, cause: &str) -> (r: String)
    ensures
        r@ == "Failed to read the checkout of '"@ + node@.name + "': "@ + cause@,
{
    cat4("Failed to read the checkout of '", node.name.as_str(), "': ", cause)
}

/// Whether a checkout still is at the commit that was found before hashing.
pub fn confirm_head(node: &DependencyNode, head: &str) -> (r: Result<(), String>)
    ensures
        match node@.resolved_commit {
            Some(expected) => if head@ == expected {
                r is Ok
            } else {
                r matches Err(m) && m@ == "Source of '"@ + node@.name
                    + "' changed while building (expected "@ + expected + ", got "@ + head@ + ")"@
            },
            None => r is Ok,
        },
{
    match &node.resolved_commit {
        Some(expected) => if same(expected.as_str(), head) {
            Ok(())
        } else {
            Err(
                cat7(
                    "Source of '",
                    node.name.as_str(),
                    "' changed while building (expected ",
                    expected.as_str(),
                    ", got ",
                    head,
                    ")",
                ),
            )
        },
        None => Ok(()),
    }
}

// ---------------------------------------------------------------------------
// Patched copies
// ---------------------------------------------------------------------------

/// The file that marks a patched copy as complete.
pub const PATCHED_MARKER: &'static str = ".unideps-patched";

/// A patched copy of a source that is to be made.
#[derive(Debug)]
pub struct PrepareJob {
    pub name: String,
    pub base: String,
    pub patches: Vec<String>,
    pub patched: String,
    pub tmp: String,
}

/// The job as texts.
#[verifier::ext_equal]
pub struct PrepareView {
    pub name: Seq<char>,
    pub base: Seq<char>,
    pub patches: Seq<Seq<char>>,
    pub patched: Seq<char>,
    pub tmp: Seq<char>,
}

impl View for PrepareJob {
    type V = PrepareView;

    open spec fn view(&self) -> PrepareView {
        PrepareView {
            name: self.name@,
            base: self.base@,
            patches: views(self.patches@),
            patched: self.patched@,
            tmp: self.tmp@,
        }
    }
}

/// What the work waits for. `Patched(n)` waits for the patch before the `n`th.
#[derive(Debug, Clone, Copy, PartialEq, Eq, Structural)]
pub enum PrepareStage {
    Start,
    Asked,
    Locked,
    AskedAgain,
    Cleared,
    Created,
    Patched(usize),
    Marked,
    Replaced,
    Moved,
    CopiedOver,
    TidiedUp,
    Abandoned,
    Finished,
}

/// What came back of the last action.
#[derive(Debug)]
pub enum PrepareEvent {
    Begin,
    Answer(bool),
    Worked,
    Failed(String),
}

/// What came back, as texts.
pub enum PrepareEventView {
    Begin,
    Answer(bool),
    Worked,
    Failed(Seq<char>),
}

impl View for PrepareEvent {
    type V = PrepareEventView;

    open spec fn view(&self) -> PrepareEventView {
        match self {
            PrepareEvent::Begin => PrepareEventView::Begin,
            PrepareEvent::Answer(b) => PrepareEventView::Answer(*b),
            PrepareEvent::Worked => PrepareEventView::Worked,
            PrepareEvent::Failed(m) => PrepareEventView::Failed(m@),
        }
    }
}

/// What is to be done next. `Clear` removes a tree if it can.
#[derive(Debug)]
pub enum PrepareAction {
    IsFile(String),
    Lock(String),
    Clear(String),
    Create(String),
    Copy { from: String, to: String },
    Patch { dir: String, patch: String },
    Write(String),
    Remove(String),
    Rename { from: String, to: String },
    Use(String),
    Fail(String),
}

/// What is to be done, as texts.
pub enum PrepareActionView {
    IsFile(Seq<char>),
    Lock(Seq<char>),
    Clear(Seq<char>),
    Create(Seq<char>),
    Copy { from: Seq<char>, to: Seq<char> },
    Patch { dir: Seq<char>, patch: Seq<char> },
    Write(Seq<char>),
    Remove(Seq<char>),
    Rename { from: Seq<char>, to: Seq<char> },
    Use(Seq<char>),
    Fail(Seq<char>),
}

impl View for PrepareAction {
    type V = PrepareActionView;

    open spec fn view(&self) -> PrepareActionView {
        match self {
            PrepareAction::IsFile(p) => PrepareActionView::IsFile(p@),
            PrepareAction::Lock(p) => PrepareActionView::Lock(p@),
            PrepareAction::Clear(p) => PrepareActionView::Clear(p@),
            PrepareAction::Create(p) => PrepareActionView::Create(p@),
            PrepareAction::Copy { from, to } => PrepareActionView::Copy { from: from@, to: to@ },
            PrepareAction::Patch { dir, patch } => PrepareActionView::Patch {
                dir: dir@,
                patch: patch@,
            },
            PrepareAction::Write(p) => PrepareActionView::Write(p@),
            PrepareAction::Remove(p) => PrepareActionView::Remove(p@),
            PrepareAction::Rename { from, to } => PrepareActionView::Rename {
                from: from@,
                to: to@,
            },
            PrepareAction::Use(p) => PrepareActionView::Use(p@),
            PrepareAction::Fail(m) => PrepareActionView::Fail(m@),
        }
    }
}

/// Where the work stands: its stage, and the error to report in the end.
#[derive(Debug)]
pub struct PrepareState {
    pub stage: PrepareStage,
    pub cause: String,
}

/// The marker of a tree.
pub open spec fn marker_in(dir: Seq<char>) -> Seq<char> {
    path_join(dir, PATCHED_MARKER@)
}

/// The error that ends the work while the copy is made.
pub open spec fn prepare_error(name: Seq<char>, cause: Seq<char>) -> Seq<char> {
    "Failed to prepare patched source for '"@ + name + "': "@ + cause
}

/// What the patched copy needs behind the `n`th patch: the next one, or the marker.
pub open spec fn after_patches(job: PrepareView, n: int) -> PrepareActionView {
    if 0 <= n < job.patches.len() {
        PrepareActionView::Patch { dir: job.tmp, patch: job.patches[n] }
    } else {
        PrepareActionView::Write(marker_in(job.tmp))
    }
}

/// The next stage, the error to report, and what to do, given what came back. The copy is made
/// under another name and moved into place when its marker is written.
pub open spec fn prepare_step(
    job: PrepareView,
    stage: PrepareStage,
    cause: Seq<char>,
    event: PrepareEventView,
) -> (PrepareStage, Seq<char>, PrepareActionView) {
    let name = job.name;
    match (stage, event) {
        (PrepareStage::Start, _) => (
            PrepareStage::Asked,
            cause,
            PrepareActionView::IsFile(marker_in(job.patched)),
        ),
        (PrepareStage::Asked, PrepareEventView::Answer(true)) => (
            PrepareStage::Finished,
            cause,
            PrepareActionView::Use(job.patched),
        ),
        (PrepareStage::Asked, _) => (
            PrepareStage::Locked,
            cause,
            PrepareActionView::Lock(job.patched),
        ),
        (PrepareStage::Locked, PrepareEventView::Failed(m)) => (
            PrepareStage::Finished,
            cause,
            PrepareActionView::Fail(m),
        ),
        (PrepareStage::Locked, _) => (
            PrepareStage::AskedAgain,
            cause,
            PrepareActionView::IsFile(marker_in(job.patched)),
        ),
        (PrepareStage::AskedAgain, PrepareEventView::Answer(true)) => (
            PrepareStage::Finished,
            cause,
            PrepareActionView::Use(job.patched),
        ),
        (PrepareStage::AskedAgain, _) => (
            PrepareStage::Cleared,
            cause,
            PrepareActionView::Clear(job.tmp),
        ),
        (PrepareStage::Cleared, _) => (
            PrepareStage::Created,
            cause,
            PrepareActionView::Create(job.tmp),
        ),
        (PrepareStage::Created, PrepareEventView::Failed(m)) => (
            PrepareStage::Finished,
            cause,
            PrepareActionView::Fail(m),
        ),
        (PrepareStage::Created, _) => (
            PrepareStage::Patched(0),
            cause,
            PrepareActionView::Copy { from: job.base, to: job.tmp },
        ),
        (PrepareStage::Patched(_), PrepareEventView::Failed(m)) => (
            PrepareStage::Abandoned,
            m,
            PrepareActionView::Clear(job.tmp),
        ),
        (PrepareStage::Patched(n), _) => (
            if n < job.patches.len() {
                PrepareStage::Patched((n + 1) as usize)
            } else {
                PrepareStage::Marked
            },
            cause,
            after_patches(job, n as int),
        ),
        (PrepareStage::Marked, PrepareEventView::Failed(m)) => (
            PrepareStage::Abandoned,
            m,
            PrepareActionView::Clear(job.tmp),
        ),
        (PrepareStage::Marked, _) => (
            PrepareStage::Replaced,
            cause,
            PrepareActionView::Remove(job.patched),
        ),
        (PrepareStage::Replaced, PrepareEventView::Failed(m)) => (
            PrepareStage::Finished,
            cause,
            PrepareActionView::Fail(m),
        ),
        (PrepareStage::Replaced, _) => (
            PrepareStage::Moved,
            cause,
            PrepareActionView::Rename { from: job.tmp, to: job.patched },
        ),
        (PrepareStage::Moved, PrepareEventView::Failed(_)) => (
            PrepareStage::CopiedOver,
            cause,
            PrepareActionView::Copy { from: job.tmp, to: job.patched },
        ),
        (PrepareStage::Moved, _) => (
            PrepareStage::Finished,
            cause,
            PrepareActionView::Use(job.patched),
        ),
        (PrepareStage::CopiedOver, PrepareEventView::Failed(m)) => (
            PrepareStage::Finished,
            cause,
            PrepareActionView::Fail(m),
        ),
        (PrepareStage::CopiedOver, _) => (
            PrepareStage::TidiedUp,
            cause,
            PrepareActionView::Clear(job.tmp),
        ),
        (PrepareStage::TidiedUp, _) => (
            PrepareStage::Finished,
            cause,
            PrepareActionView::Use(job.patched),
        ),
        (PrepareStage::Abandoned, _) => (
            PrepareStage::Finished,
            cause,
            PrepareActionView::Fail(prepare_error(name, cause)),
        ),
        (PrepareStage::Finished, _) => (
            PrepareStage::Finished,
            cause,
            PrepareActionView::Use(job.patched),
        ),
    }
}

/// How far the work has come; it ends at the last number.
pub open spec fn progress(job: PrepareView, stage: PrepareStage) -> int {
    let n = job.patches.len() as int;
    match stage {
        PrepareStage::Start => 0,
        PrepareStage::Asked => 1,
        PrepareStage::Locked => 2,
        PrepareStage::AskedAgain => 3,
        PrepareStage::Cleared => 4,
        PrepareStage::Created => 5,
        PrepareStage::Patched(k) => 6 + if k < n {
            k as int
        } else {
            n
        },
        PrepareStage::Marked => 7 + n,
        PrepareStage::Replaced => 8 + n,
        PrepareStage::Moved => 9 + n,
        PrepareStage::CopiedOver => 10 + n,
        PrepareStage::TidiedUp => 11 + n,
        PrepareStage::Abandoned => 12 + n,
        PrepareStage::Finished => 13 + n,
    }
}

/// Every step leads on, so that the work ends, whatever comes back.
pub proof fn preparing_ends(
    job: PrepareView,
    stage: PrepareStage,
    cause: Seq<char>,
    event: PrepareEventView,
)
    requires
        stage != PrepareStage::Finished,
        job.patches.len() <= usize::MAX,
    ensures
        progress(job, stage) < progress(job, prepare_step(job, stage, cause, event).0) <= 13
            + job.patches.len(),
{
}

/// The marker is asked for only when the last patch has been applied, and the copy is moved into
/// place only when the marker has been written; a copy that is not complete never gets the name
/// that builds look for.
pub proof fn only_complete_copies_are_moved(
    job: PrepareView,
    stage: PrepareStage,
    cause: Seq<char>,
    event: PrepareEventView,
)
    ensures
        prepare_step(job, stage, cause, event).2 matches PrepareActionView::Write(_) ==> stage
            matches PrepareStage::Patched(n) && n >= job.patches.len() && !(event is Failed),
        prepare_step(job, stage, cause, event).0 == PrepareStage::Replaced ==> stage
            == PrepareStage::Marked && !(event is Failed),
        prepare_step(job, stage, cause, event).2 matches PrepareActionView::Rename { .. } ==> stage
            == PrepareStage::Replaced && !(event is Failed),
        prepare_step(job, stage, cause, event).2 matches PrepareActionView::Copy { to, .. } ==> to
            == job.tmp || stage == PrepareStage::Moved,
{
}

/// A source with patches is used only as its patched copy.
pub proof fn patched_sources_are_used(
    job: PrepareView,
    stage: PrepareStage,
    cause: Seq<char>,
    event: PrepareEventView,
)
    ensures
        prepare_step(job, stage, cause, event).2 matches PrepareActionView::Use(dir) ==> dir
            == job.patched,
{
}

impl PrepareState {
    /// Before the first step.
    pub fn first() -> (r: Self)
        ensures
            r.stage == PrepareStage::Start,
            r.cause@ == Seq::<char>::empty(),
    {
        PrepareState { stage: PrepareStage::Start, cause: String::new() }
    }
}

impl PrepareJob {
    fn marker_of(dir: &String) -> (r: String)
        ensures
            r@ == marker_in(dir@),
    {
        join_path(dir.as_str(), PATCHED_MARKER)
    }

    fn next_patch(&self, n: usize) -> (r: (PrepareStage, PrepareAction))
        ensures
            r.0 == if n < self@.patches.len() {
                PrepareStage::Patched((n + 1) as usize)
            } else {
                PrepareStage::Marked
            },
            r.1@ == after_patches(self@, n as int),
    {
        if n < self.patches.len() {
            let patch = self.patches[n].clone();
            (PrepareStage::Patched(n + 1), PrepareAction::Patch { dir: self.tmp.clone(), patch })
        } else {
            (PrepareStage::Marked, PrepareAction::Write(Self::marker_of(&self.tmp)))
        }
    }

    /// What to do next, given what came back.
    pub fn next(&self, state: PrepareState, event: &PrepareEvent) -> (r: (
        PrepareState,
        PrepareAction,
    ))
        ensures
            (r.0.stage, r.0.cause@, r.1@) == prepare_step(self@, state.stage, state.cause@, event@),
    {
        let answer = match event {
            PrepareEvent::Answer(b) => *b,
            _ => false,
        };
        let cause = state.cause;
        if let PrepareEvent::Failed(m) = event {
            match state.stage {
                PrepareStage::Locked | PrepareStage::Created | PrepareStage::Replaced
                | PrepareStage::CopiedOver => {
                    let s = PrepareState { stage: PrepareStage::Finished, cause };
                    return (s, PrepareAction::Fail(m.clone()));
                },
                PrepareStage::Patched(_) | PrepareStage::Marked => {
                    let s = PrepareState { stage: PrepareStage::Abandoned, cause: m.clone() };
                    return (s, PrepareAction::Clear(self.tmp.clone()));
                },
                PrepareStage::Moved => {
                    let s = PrepareState { stage: PrepareStage::CopiedOver, cause };
                    let a = PrepareAction::Copy { from: self.tmp.clone(), to: self.patched.clone() };
                    return (s, a);
                },
                _ => {},
            }
        }
        let (stage, action) = match state.stage {
            PrepareStage::Start => (
                PrepareStage::Asked,
                PrepareAction::IsFile(Self::marker_of(&self.patched)),
            ),
            PrepareStage::Asked => if answer {
                (PrepareStage::Finished, PrepareAction::Use(self.patched.clone()))
            } else {
                (PrepareStage::Locked, PrepareAction::Lock(self.patched.clone()))
            },
            PrepareStage::Locked => (
                PrepareStage::AskedAgain,
                PrepareAction::IsFile(Self::marker_of(&self.patched)),
            ),
            PrepareStage::AskedAgain => if answer {
                (PrepareStage::Finished, PrepareAction::Use(self.patched.clone()))
            } else {
                (PrepareStage::Cleared, PrepareAction::Clear(self.tmp.clone()))
            },
            PrepareStage::Cleared => (
                PrepareStage::Created,
                PrepareAction::Create(self.tmp.clone()),
            ),
            PrepareStage::Created => (
                PrepareStage::Patched(0),
                PrepareAction::Copy { from: self.base.clone(), to: self.tmp.clone() },
            ),
            PrepareStage::Patched(n) => self.next_patch(n),
            PrepareStage::Marked => (
                PrepareStage::Replaced,
                PrepareAction::Remove(self.patched.clone()),
            ),
            PrepareStage::Replaced => (
                PrepareStage::Moved,
                PrepareAction::Rename { from: self.tmp.clone(), to: self.patched.clone() },
            ),
            PrepareStage::CopiedOver => (
                PrepareStage::TidiedUp,
                PrepareAction::Clear(self.tmp.clone()),
            ),
            PrepareStage::Abandoned => (
                PrepareStage::Finished,
                PrepareAction::Fail(
                    cat4(
                        "Failed to prepare patched source for '",
                        self.name.as_str(),
                        "': ",
                        cause.as_str(),
                    ),
                ),
            ),
            PrepareStage::Moved | PrepareStage::TidiedUp | PrepareStage::Finished => (
                PrepareStage::Finished,
                PrepareAction::Use(self.patched.clone()),
            ),
        };
        (PrepareState { stage, cause }, action)
    }
}

// ---------------------------------------------------------------------------
// What is promised of sources
// ---------------------------------------------------------------------------

/// A name in a path keeps its letters, digits, dots, hyphens and underscores; every other character
/// becomes an underscore.
pub proof fn a_name_is_made_safe_for_a_path(s: Seq<char>, i: int)
    requires
        0 <= i < s.len(),
    ensures
        sanitized(s).len() == s.len(),
        'a' <= s[i] <= 'z' || 'A' <= s[i] <= 'Z' || '0' <= s[i] <= '9' || s[i] == '.' || s[i] == '-'
            || s[i] == '_' ==> sanitized(s)[i] == s[i],
        !('a' <= s[i] <= 'z' || 'A' <= s[i] <= 'Z' || '0' <= s[i] <= '9' || s[i] == '.' || s[i]
            == '-' || s[i] == '_') ==> sanitized(s)[i] == '_',
        sanitized(s)[i] != '/',
{
}

/// A checkout is named by the package, its revision and its url. Of a commit the first twelve digits
/// count, a branch is marked as one, and the default branch is called `head`.
pub proof fn a_checkout_is_named_by_package_revision_and_url(n: NodeView, url: Seq<char>)
    ensures
        ({
            let name = checkout_name(n, url);
            let end = "-"@ + id_of(encode_utf8(url)).take(8);
            &&& n.commit matches Some(c) ==> {
                &&& c.len() > 12 ==> name == n.name + "-"@ + sanitized(c.take(12)) + end
                &&& c.len() <= 12 ==> name == n.name + "-"@ + sanitized(c) + end
            }
            &&& n.commit is None ==> {
                &&& n.tag matches Some(t) ==> name == n.name + "-"@ + sanitized(t) + end
                &&& n.tag is None && n.branch is Some ==> name == n.name + "-"@ + ("branch-"@
                    + sanitized(n.branch->0)) + end
                &&& n.tag is None && n.branch is None ==> name == n.name + "-"@ + "head"@ + end
            }
        }),
{
    let part = ref_part(node_ref(n));
    let end = "-"@ + id_of(encode_utf8(url)).take(8);
    assert(checkout_name(n, url) =~= n.name + "-"@ + part + end);
}

/// Making a patched copy: whether it is complete is asked, before the lock is taken and after. Else
/// the source is copied into an empty temporary directory.
pub proof fn a_patched_copy_starts_in_a_temporary_directory(job: PrepareView, cause: Seq<char>)
    ensures
        ({
            let a = prepare_step(job, PrepareStage::Start, cause, PrepareEventView::Begin);
            let done = prepare_step(job, a.0, cause, PrepareEventView::Answer(true));
            let b = prepare_step(job, a.0, cause, PrepareEventView::Answer(false));
            let c = prepare_step(job, b.0, cause, PrepareEventView::Worked);
            let late = prepare_step(job, c.0, cause, PrepareEventView::Answer(true));
            let d = prepare_step(job, c.0, cause, PrepareEventView::Answer(false));
            let e = prepare_step(job, d.0, cause, PrepareEventView::Worked);
            let f = prepare_step(job, e.0, cause, PrepareEventView::Worked);
            let marker = path_join(job.patched, ".unideps-patched"@);
            &&& a.2 == PrepareActionView::IsFile(marker)
            &&& done.2 == PrepareActionView::Use(job.patched)
            &&& b.2 == PrepareActionView::Lock(job.patched)
            &&& c.2 == PrepareActionView::IsFile(marker)
            &&& late.2 == PrepareActionView::Use(job.patched)
            &&& d.2 == PrepareActionView::Clear(job.tmp)
            &&& e.2 == PrepareActionView::Create(job.tmp)
            &&& f.2 == PrepareActionView::Copy { from: job.base, to: job.tmp }
            &&& f.0 == PrepareStage::Patched(0)
        }),
{
}

/// Every patch is applied to the temporary copy, in the order of the patches.
pub proof fn every_patch_is_applied_in_order(job: PrepareView, cause: Seq<char>, n: usize)
    requires
        n < job.patches.len() <= usize::MAX,
    ensures
        prepare_step(job, PrepareStage::Patched(n), cause, PrepareEventView::Worked).2
            == (PrepareActionView::Patch { dir: job.tmp, patch: job.patches[n as int] }),
        prepare_step(job, PrepareStage::Patched(n), cause, PrepareEventView::Worked).0
            == PrepareStage::Patched((n + 1) as usize),
{
}

/// A copy with all patches is marked as complete, takes the place of what was there, and is used.
pub proof fn a_complete_copy_takes_its_place(job: PrepareView, cause: Seq<char>, n: usize)
    requires
        n == job.patches.len(),
    ensures
        ({
            let a = prepare_step(job, PrepareStage::Patched(n), cause, PrepareEventView::Worked);
            let b = prepare_step(job, a.0, cause, PrepareEventView::Worked);
            let c = prepare_step(job, b.0, cause, PrepareEventView::Worked);
            let d = prepare_step(job, c.0, cause, PrepareEventView::Worked);
            let e = prepare_step(job, c.0, cause, PrepareEventView::Failed(cause));
            let f = prepare_step(job, e.0, cause, PrepareEventView::Worked);
            let g = prepare_step(job, f.0, cause, PrepareEventView::Worked);
            &&& a.2 == PrepareActionView::Write(path_join(job.tmp, ".unideps-patched"@))
            &&& b.2 == PrepareActionView::Remove(job.patched)
            &&& c.2 == (PrepareActionView::Rename { from: job.tmp, to: job.patched })
            &&& d.2 == PrepareActionView::Use(job.patched)
            &&& e.2 == (PrepareActionView::Copy { from: job.tmp, to: job.patched })
            &&& f.2 == PrepareActionView::Clear(job.tmp)
            &&& g.2 == PrepareActionView::Use(job.patched)
        }),
{
}

/// A patch that cannot be applied leaves no copy behind, and the error names the package and the
/// cause.
pub proof fn a_patch_that_fails_leaves_nothing(
    job: PrepareView,
    stage: PrepareStage,
    cause: Seq<char>,
    m: Seq<char>,
    later: PrepareEventView,
)
    requires
        stage is Patched || stage == PrepareStage::Marked,
    ensures
        ({
            let a = prepare_step(job, stage, cause, PrepareEventView::Failed(m));
            let b = prepare_step(job, a.0, a.1, later);
            &&& a.2 == PrepareActionView::Clear(job.tmp)
            &&& b.2 == PrepareActionView::Fail(
                "Failed to prepare patched source for '"@ + job.name + "': "@ + m,
            )
        }),
{
}

/// What goes wrong with the directories is reported in its own words.
pub proof fn a_directory_that_fails_is_reported(
    job: PrepareView,
    stage: PrepareStage,
    cause: Seq<char>,
    m: Seq<char>,
)
    requires
        stage == PrepareStage::Locked || stage == PrepareStage::Created || stage
            == PrepareStage::Replaced || stage == PrepareStage::CopiedOver,
    ensures
        prepare_step(job, stage, cause, PrepareEventView::Failed(m)).2 == PrepareActionView::Fail(m),
{
}

/// A checkout lies among the sources of the storage, and counts as brought up to date where its
/// directory was recorded.
pub proof fn where_a_checkout_lies(
    p: Sources<'_>,
    n: NodeView,
    url: Seq<char>,
    dirs: Seq<Seq<char>>,
)
    ensures
        p.dir_for(n, url) == path_join(
            path_join(p.storage.base_dir@, "sources"@),
            checkout_name(n, url),
        ),
        has_path(dirs.push(p.dir_for(n, url)), p.dir_for(n, url)),
        !has_path(Seq::empty(), p.dir_for(n, url)),
{
    let all = dirs.push(p.dir_for(n, url));
    assert(same_path(all[dirs.len() as int], p.dir_for(n, url)));
}

} // verus!
