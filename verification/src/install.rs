//! The installation of one package: where it goes, and what to do next, given what came back.
use crate::hash::{id_of, HashCalculator};
use crate::node::{DependencyNode, NodeView};
use crate::path::{is_abs, is_absolute, join_path, path_join};
use crate::project::Project;
use crate::storage::StorageManager;
use crate::text::{cat2, cat3, cat4, cat5, copy_list, views};
use vstd::prelude::*;
use vstd::string::*;
use vstd::utf8::encode_utf8;

verus! {

broadcast use vstd::string::group_string_axioms;

/// Where the build of a package goes.
#[derive(Debug)]
pub struct Places {
    pub dir_name: String,
    pub install_dir: String,
    pub archive_name: String,
    pub archive: String,
    pub scratch: String,
}

impl Places {
    /// Whether these are the places of a build: each is named by the package and the identity of
    /// its build.
    pub open spec fn names(&self, storage: StorageManager, name: Seq<char>, build_id: Seq<char>) -> bool {
        &&& self.dir_name@ == name + "-"@ + build_id
        &&& self.install_dir@ == path_join(storage.dir("installed"@), self.dir_name@)
        &&& self.archive_name@ == self.dir_name@ + ".tar.zst"@
        &&& self.archive@ == path_join(storage.dir("cache"@), self.archive_name@)
        &&& self.scratch@ == path_join(storage.scratch(), self.dir_name@)
    }

    /// The places of the build `build_id` of a package.
    pub fn new(storage: &StorageManager, name: &str, build_id: &str) -> (r: Self)
        ensures
            r.names(*storage, name@, build_id@),
    {
        let dir_name = cat3(name, "-", build_id);
        let installed = storage.installed_dir();
        let cache = storage.cache_dir();
        let scratch_dir = storage.scratch_dir();
        let archive_name = cat2(dir_name.as_str(), ".tar.zst");
        let install_dir = join_path(installed.as_str(), dir_name.as_str());
        let archive = join_path(cache.as_str(), archive_name.as_str());
        let scratch = join_path(scratch_dir.as_str(), dir_name.as_str());
        Places { dir_name, install_dir, archive_name, archive, scratch }
    }
}

/// Marks a package as built.
pub fn mark_built(node: &mut DependencyNode, build_id: String, prefix: String)
    ensures
        final(node)@ == (NodeView {
            build_id: Some(build_id@),
            install_prefix: Some(prefix@),
            ..old(node)@
        }),
        old(node).wf() ==> final(node).wf(),
{
    node.build_id = Some(build_id);
    node.install_prefix = Some(prefix);
}

/// Uses a tool that the machine has of its own: its path stands for its build.
pub fn use_local_tool(node: &mut DependencyNode, path: String, is_there: bool) -> (r: Result<
    (),
    String,
>)
    ensures
        if is_there {
            r is Ok && final(node)@ == (NodeView {
                build_id: Some(id_of(encode_utf8(path@))),
                install_prefix: Some(path@),
                ..old(node)@
            })
        } else {
            r matches Err(m) && m@ == "Local tool path for '"@ + old(node)@.name
                + "' does not exist: "@ + path@ && final(node)@ == old(node)@
        },
        old(node).wf() ==> final(node).wf(),
{
    if !is_there {
        return Err(
            cat4(
                "Local tool path for '",
                node.name.as_str(),
                "' does not exist: ",
                path.as_str(),
            ),
        );
    }
    let id = HashCalculator::short_hash(path.as_str());
    mark_built(node, id, path);
    Ok(())
}

/// Whether the source of a package is downloaded: it comes from a repository, and the machine has
/// no tool of its own in its place.
pub fn is_fetched(project: &Project, node: &DependencyNode) -> (r: bool)
    ensures
        r == (node@.git is Some && node@.path is None && project.local_tool(node@.name) is None),
{
    node.git.is_some() && node.path.is_none() && project.local_tool_path(
        node.name.as_str(),
    ).is_none()
}

// ---------------------------------------------------------------------------
// Headers
// ---------------------------------------------------------------------------

/// The directories of headers that a package of headers alone installs.
pub fn header_dirs(node: &DependencyNode) -> (r: Vec<String>)
    ensures
        views(r@) == if node@.include_dirs.len() == 0 {
            seq!["include"@]
        } else {
            node@.include_dirs
        },
{
    if node.include_dirs.len() == 0 {
        let mut out: Vec<String> = Vec::new();
        out.push("include".to_owned());
        assert(views(out@) =~= seq!["include"@]);
        out
    } else {
        copy_list(&node.include_dirs)
    }
}

/// Where headers are copied from and to: the layout of the source is kept. `is_dir` tells whether
/// the directory is there in the source.
pub fn header_copy(
    node: &DependencyNode,
    rel: &str,
    src_dir: &str,
    install_dir: &str,
    is_dir: bool,
) -> (r: Result<(String, String), String>)
    ensures
        if is_abs(rel@) {
            r matches Err(m) && m@ == "include_dirs of header-only '"@ + node@.name
                + "' must be relative: "@ + rel@
        } else if !is_dir {
            r matches Err(m) && m@ == "Header-only '"@ + node@.name + "': '"@ + rel@
                + "' not found in source; set `include_dirs` to the header directory"@
        } else {
            r matches Ok((from, to)) && from@ == path_join(src_dir@, rel@) && to@ == path_join(
                install_dir@,
                rel@,
            )
        },
{
    if is_absolute(rel) {
        return Err(
            cat4(
                "include_dirs of header-only '",
                node.name.as_str(),
                "' must be relative: ",
                rel,
            ),
        );
    }
    if !is_dir {
        return Err(
            cat5(
                "Header-only '",
                node.name.as_str(),
                "': '",
                rel,
                "' not found in source; set `include_dirs` to the header directory",
            ),
        );
    }
    Ok((join_path(src_dir, rel), join_path(install_dir, rel)))
}

// ---------------------------------------------------------------------------
// The steps
// ---------------------------------------------------------------------------

/// A package that is to be installed.
#[derive(Debug)]
pub struct InstallJob {
    pub name: String,
    pub header_only: bool,
    pub src_dir: String,
    pub keep_build_dirs: bool,
    pub places: Places,
}

/// What the installation waits for.
#[derive(Debug, Clone, Copy, PartialEq, Eq, Structural)]
pub enum InstallStage {
    Start,
    Asked,
    Locked,
    AskedAgain,
    Emptied,
    ArchiveAsked,
    Unpacked,
    UnpackedMarked,
    ArchiveDropped,
    EmptiedAgain,
    HeadersCopied,
    ListsAsked,
    Built,
    Packed,
    Marked,
    Tidied,
    Finished,
}

/// What came back of the last action.
#[derive(Debug)]
pub enum InstallEvent {
    Begin,
    Answer(bool),
    Worked,
    Failed(String),
}

/// What came back, as texts.
pub enum InstallEventView {
    Begin,
    Answer(bool),
    Worked,
    Failed(Seq<char>),
}

impl View for InstallEvent {
    type V = InstallEventView;

    open spec fn view(&self) -> InstallEventView {
        match self {
            InstallEvent::Begin => InstallEventView::Begin,
            InstallEvent::Answer(b) => InstallEventView::Answer(*b),
            InstallEvent::Worked => InstallEventView::Worked,
            InstallEvent::Failed(m) => InstallEventView::Failed(m@),
        }
    }
}

/// What is to be done next. `DropArchive` warns of an archive that cannot be read and removes it.
#[derive(Debug)]
pub enum InstallAction {
    IsInstalled,
    Lock,
    Empty,
    HasArchive,
    Unpack,
    DropArchive(String),
    CopyHeaders,
    HasLists,
    RunCMake,
    Pack,
    Mark,
    Tidy,
    Done,
    Fail(String),
}

/// What is to be done, as texts.
pub enum InstallActionView {
    IsInstalled,
    Lock,
    Empty,
    HasArchive,
    Unpack,
    DropArchive(Seq<char>),
    CopyHeaders,
    HasLists,
    RunCMake,
    Pack,
    Mark,
    Tidy,
    Done,
    Fail(Seq<char>),
}

impl View for InstallAction {
    type V = InstallActionView;

    open spec fn view(&self) -> InstallActionView {
        match self {
            InstallAction::IsInstalled => InstallActionView::IsInstalled,
            InstallAction::Lock => InstallActionView::Lock,
            InstallAction::Empty => InstallActionView::Empty,
            InstallAction::HasArchive => InstallActionView::HasArchive,
            InstallAction::Unpack => InstallActionView::Unpack,
            InstallAction::DropArchive(m) => InstallActionView::DropArchive(m@),
            InstallAction::CopyHeaders => InstallActionView::CopyHeaders,
            InstallAction::HasLists => InstallActionView::HasLists,
            InstallAction::RunCMake => InstallActionView::RunCMake,
            InstallAction::Pack => InstallActionView::Pack,
            InstallAction::Mark => InstallActionView::Mark,
            InstallAction::Tidy => InstallActionView::Tidy,
            InstallAction::Done => InstallActionView::Done,
            InstallAction::Fail(m) => InstallActionView::Fail(m@),
        }
    }
}

/// How a package is built: its headers are copied, or CMake runs on it.
pub open spec fn first_of_build(header_only: bool) -> (InstallStage, InstallActionView) {
    if header_only {
        (InstallStage::HeadersCopied, InstallActionView::CopyHeaders)
    } else {
        (InstallStage::ListsAsked, InstallActionView::HasLists)
    }
}

/// The message for a source that CMake cannot build.
pub open spec fn no_lists_message(name: Seq<char>, src_dir: Seq<char>) -> Seq<char> {
    "CMakeLists.txt not found in source directory of '"@ + name + "': "@ + src_dir
}

/// The next stage and what to do, given what came back. A package that is there is used; else the
/// run that installs it locks it and looks again, and takes it from the cache, or builds it where
/// the cache has nothing that can be read.
pub open spec fn install_step(
    job: InstallJob,
    stage: InstallStage,
    event: InstallEventView,
) -> (InstallStage, InstallActionView) {
    match (stage, event) {
        (InstallStage::Start, _) => (InstallStage::Asked, InstallActionView::IsInstalled),
        (InstallStage::Asked, InstallEventView::Answer(true)) => (
            InstallStage::Finished,
            InstallActionView::Done,
        ),
        (InstallStage::Asked, _) => (InstallStage::Locked, InstallActionView::Lock),
        (InstallStage::Unpacked, InstallEventView::Failed(m)) => (
            InstallStage::ArchiveDropped,
            InstallActionView::DropArchive(
                "discarding corrupted cache archive "@ + job.places.archive@ + ": "@ + m,
            ),
        ),
        (InstallStage::ArchiveDropped, _) => (InstallStage::EmptiedAgain, InstallActionView::Empty),
        (InstallStage::Tidied, _) => (InstallStage::Finished, InstallActionView::Done),
        (_, InstallEventView::Failed(m)) => (InstallStage::Finished, InstallActionView::Fail(m)),
        (InstallStage::Locked, _) => (InstallStage::AskedAgain, InstallActionView::IsInstalled),
        (InstallStage::AskedAgain, InstallEventView::Answer(true)) => (
            InstallStage::Finished,
            InstallActionView::Done,
        ),
        (InstallStage::AskedAgain, _) => (InstallStage::Emptied, InstallActionView::Empty),
        (InstallStage::Emptied, _) => (InstallStage::ArchiveAsked, InstallActionView::HasArchive),
        (InstallStage::ArchiveAsked, InstallEventView::Answer(true)) => (
            InstallStage::Unpacked,
            InstallActionView::Unpack,
        ),
        (InstallStage::ArchiveAsked, _) => first_of_build(job.header_only),
        (InstallStage::Unpacked, _) => (InstallStage::UnpackedMarked, InstallActionView::Mark),
        (InstallStage::UnpackedMarked, _) => (InstallStage::Finished, InstallActionView::Done),
        (InstallStage::EmptiedAgain, _) => first_of_build(job.header_only),
        (InstallStage::HeadersCopied, _) => (InstallStage::Packed, InstallActionView::Pack),
        (InstallStage::ListsAsked, InstallEventView::Answer(true)) => (
            InstallStage::Built,
            InstallActionView::RunCMake,
        ),
        (InstallStage::ListsAsked, _) => (
            InstallStage::Finished,
            InstallActionView::Fail(no_lists_message(job.name@, job.src_dir@)),
        ),
        (InstallStage::Built, _) => (InstallStage::Packed, InstallActionView::Pack),
        (InstallStage::Packed, _) => (InstallStage::Marked, InstallActionView::Mark),
        (InstallStage::Marked, _) => if job.keep_build_dirs {
            (InstallStage::Finished, InstallActionView::Done)
        } else {
            (InstallStage::Tidied, InstallActionView::Tidy)
        },
        (InstallStage::Finished, _) => (InstallStage::Finished, InstallActionView::Done),
    }
}

/// How far an installation has come.
pub open spec fn install_progress(stage: InstallStage) -> int {
    match stage {
        InstallStage::Start => 0,
        InstallStage::Asked => 1,
        InstallStage::Locked => 2,
        InstallStage::AskedAgain => 3,
        InstallStage::Emptied => 4,
        InstallStage::ArchiveAsked => 5,
        InstallStage::Unpacked => 6,
        InstallStage::UnpackedMarked => 7,
        InstallStage::ArchiveDropped => 8,
        InstallStage::EmptiedAgain => 9,
        InstallStage::HeadersCopied => 10,
        InstallStage::ListsAsked => 11,
        InstallStage::Built => 12,
        InstallStage::Packed => 13,
        InstallStage::Marked => 14,
        InstallStage::Tidied => 15,
        InstallStage::Finished => 16,
    }
}

/// Every step leads on, so that an installation ends, whatever comes back.
pub proof fn installing_ends(job: InstallJob, stage: InstallStage, event: InstallEventView)
    requires
        stage != InstallStage::Finished,
    ensures
        install_progress(stage) < install_progress(install_step(job, stage, event).0) <= 16,
{
}

/// An install is marked as complete only when an archive was unpacked or a build was packed, and
/// it is reported as done only when it was found to be complete or has just been marked.
pub proof fn only_complete_installs_are_marked(
    job: InstallJob,
    stage: InstallStage,
    event: InstallEventView,
)
    requires
        stage != InstallStage::Finished,
    ensures
        install_step(job, stage, event).1 is Mark ==> (stage == InstallStage::Unpacked || stage
            == InstallStage::Packed) && !(event is Failed),
        install_step(job, stage, event).1 is Done ==> ((stage == InstallStage::Asked || stage
            == InstallStage::AskedAgain) && event == InstallEventView::Answer(true)) || ((stage
            == InstallStage::UnpackedMarked || stage == InstallStage::Marked) && !(
        event is Failed)) || stage == InstallStage::Tidied,
        install_step(job, stage, event).0 == InstallStage::Tidied ==> stage
            == InstallStage::Marked && !(event is Failed),
{
}

/// An archive that cannot be unpacked is dropped, and the package is built anew.
pub proof fn broken_archives_are_rebuilt(job: InstallJob, m: Seq<char>)
    ensures
        ({
            let dropped = install_step(job, InstallStage::Unpacked, InstallEventView::Failed(m));
            let emptied = install_step(job, dropped.0, InstallEventView::Worked);
            let next = install_step(job, emptied.0, InstallEventView::Worked);
            &&& dropped.1 is DropArchive
            &&& emptied.1 is Empty
            &&& next == first_of_build(job.header_only)
        }),
{
}

impl InstallJob {
    fn start_build(&self) -> (r: (InstallStage, InstallAction))
        ensures
            (r.0, r.1@) == first_of_build(self.header_only),
    {
        if self.header_only {
            (InstallStage::HeadersCopied, InstallAction::CopyHeaders)
        } else {
            (InstallStage::ListsAsked, InstallAction::HasLists)
        }
    }

    /// What to do next, given what came back.
    pub fn next(&self, stage: InstallStage, event: &InstallEvent) -> (r: (
        InstallStage,
        InstallAction,
    ))
        ensures
            (r.0, r.1@) == install_step(*self, stage, event@),
    {
        let yes = match event {
            InstallEvent::Answer(b) => *b,
            _ => false,
        };
        if let InstallEvent::Failed(m) = event {
            match stage {
                InstallStage::Unpacked => {
                    let text = cat4(
                        "discarding corrupted cache archive ",
                        self.places.archive.as_str(),
                        ": ",
                        m.as_str(),
                    );
                    return (InstallStage::ArchiveDropped, InstallAction::DropArchive(text));
                },
                InstallStage::Start | InstallStage::Asked | InstallStage::ArchiveDropped
                | InstallStage::Tidied => {},
                _ => {
                    return (InstallStage::Finished, InstallAction::Fail(m.clone()));
                },
            }
        }
        match stage {
            InstallStage::Start => (InstallStage::Asked, InstallAction::IsInstalled),
            InstallStage::Asked => if yes {
                (InstallStage::Finished, InstallAction::Done)
            } else {
                (InstallStage::Locked, InstallAction::Lock)
            },
            InstallStage::Locked => (InstallStage::AskedAgain, InstallAction::IsInstalled),
            InstallStage::AskedAgain => if yes {
                (InstallStage::Finished, InstallAction::Done)
            } else {
                (InstallStage::Emptied, InstallAction::Empty)
            },
            InstallStage::Emptied => (InstallStage::ArchiveAsked, InstallAction::HasArchive),
            InstallStage::ArchiveAsked => if yes {
                (InstallStage::Unpacked, InstallAction::Unpack)
            } else {
                self.start_build()
            },
            InstallStage::Unpacked => (InstallStage::UnpackedMarked, InstallAction::Mark),
            InstallStage::UnpackedMarked => (InstallStage::Finished, InstallAction::Done),
            InstallStage::ArchiveDropped => (InstallStage::EmptiedAgain, InstallAction::Empty),
            InstallStage::EmptiedAgain => self.start_build(),
            InstallStage::HeadersCopied => (InstallStage::Packed, InstallAction::Pack),
            InstallStage::ListsAsked => if yes {
                (InstallStage::Built, InstallAction::RunCMake)
            } else {
                let text = cat4(
                    "CMakeLists.txt not found in source directory of '",
                    self.name.as_str(),
                    "': ",
                    self.src_dir.as_str(),
                );
                (InstallStage::Finished, InstallAction::Fail(text))
            },
            InstallStage::Built => (InstallStage::Packed, InstallAction::Pack),
            InstallStage::Packed => (InstallStage::Marked, InstallAction::Mark),
            InstallStage::Marked => if self.keep_build_dirs {
                (InstallStage::Finished, InstallAction::Done)
            } else {
                (InstallStage::Tidied, InstallAction::Tidy)
            },
            InstallStage::Tidied => (InstallStage::Finished, InstallAction::Done),
            InstallStage::Finished => (InstallStage::Finished, InstallAction::Done),
        }
    }
}

// ---------------------------------------------------------------------------
// What is promised of an installation
// ---------------------------------------------------------------------------

/// A package that is installed is left alone, before the lock is taken and after.
pub proof fn an_installed_package_is_left_alone(job: InstallJob)
    ensures
        ({
            let a = install_step(job, InstallStage::Start, InstallEventView::Begin);
            let b = install_step(job, a.0, InstallEventView::Answer(true));
            let c = install_step(job, a.0, InstallEventView::Answer(false));
            let d = install_step(job, c.0, InstallEventView::Worked);
            let e = install_step(job, d.0, InstallEventView::Answer(true));
            &&& a.1 == InstallActionView::IsInstalled
            &&& b == (InstallStage::Finished, InstallActionView::Done)
            &&& c.1 == InstallActionView::Lock
            &&& d.1 == InstallActionView::IsInstalled
            &&& e == (InstallStage::Finished, InstallActionView::Done)
        }),
{
}

/// A package that is not installed goes into an empty directory. Where there is an archive of it,
/// that is unpacked and the package marked as installed, and nothing is built.
pub proof fn an_archive_spares_the_build(job: InstallJob)
    ensures
        ({
            let a = install_step(job, InstallStage::AskedAgain, InstallEventView::Answer(false));
            let b = install_step(job, a.0, InstallEventView::Worked);
            let c = install_step(job, b.0, InstallEventView::Answer(true));
            let d = install_step(job, c.0, InstallEventView::Worked);
            let e = install_step(job, d.0, InstallEventView::Worked);
            &&& a.1 == InstallActionView::Empty
            &&& b.1 == InstallActionView::HasArchive
            &&& c.1 == InstallActionView::Unpack
            &&& d.1 == InstallActionView::Mark
            &&& e == (InstallStage::Finished, InstallActionView::Done)
        }),
{
}

/// Without an archive a package is built: with CMake, where it has a list of what to build, or by
/// copying its headers, where it has nothing else. It is packed, then marked as installed; the build
/// directory goes away unless it is to be kept.
pub proof fn a_package_without_an_archive_is_built(job: InstallJob)
    ensures
        ({
            let a = install_step(job, InstallStage::ArchiveAsked, InstallEventView::Answer(false));
            let b = install_step(job, a.0, InstallEventView::Answer(true));
            let built = if job.header_only {
                a
            } else {
                b
            };
            let c = install_step(job, built.0, InstallEventView::Worked);
            let d = install_step(job, c.0, InstallEventView::Worked);
            let e = install_step(job, d.0, InstallEventView::Worked);
            let f = install_step(job, e.0, InstallEventView::Worked);
            &&& job.header_only ==> a.1 == InstallActionView::CopyHeaders
            &&& !job.header_only ==> a.1 == InstallActionView::HasLists && b.1
                == InstallActionView::RunCMake
            &&& c.1 == InstallActionView::Pack
            &&& d.1 == InstallActionView::Mark
            &&& job.keep_build_dirs ==> e == (InstallStage::Finished, InstallActionView::Done)
            &&& !job.keep_build_dirs ==> e.1 == InstallActionView::Tidy && f == (
                InstallStage::Finished,
                InstallActionView::Done,
            )
        }),
{
}

/// What goes wrong ends an installation with its own words, but for an archive that cannot be
/// unpacked, which is thrown away and warned of, and for a build directory that cannot be removed.
pub proof fn what_goes_wrong_ends_an_installation(
    job: InstallJob,
    stage: InstallStage,
    m: Seq<char>,
)
    ensures
        stage == InstallStage::Locked || stage == InstallStage::AskedAgain || stage
            == InstallStage::Emptied || stage == InstallStage::ArchiveAsked || stage
            == InstallStage::UnpackedMarked || stage == InstallStage::EmptiedAgain || stage
            == InstallStage::HeadersCopied || stage == InstallStage::ListsAsked || stage
            == InstallStage::Built || stage == InstallStage::Packed || stage == InstallStage::Marked
            ==> install_step(job, stage, InstallEventView::Failed(m)) == (
            InstallStage::Finished,
            InstallActionView::Fail(m),
        ),
        install_step(job, InstallStage::Unpacked, InstallEventView::Failed(m)).1
            == InstallActionView::DropArchive(
            "discarding corrupted cache archive "@ + job.places.archive@ + ": "@ + m,
        ),
        install_step(job, InstallStage::Tidied, InstallEventView::Failed(m)) == (
            InstallStage::Finished,
            InstallActionView::Done,
        ),
        install_step(job, InstallStage::ListsAsked, InstallEventView::Answer(false)) == (
            InstallStage::Finished,
            InstallActionView::Fail(
                "CMakeLists.txt not found in source directory of '"@ + job.name@ + "': "@
                    + job.src_dir@,
            ),
        ),
{
}

/// A build goes below the storage: its files, its archive and its scratch space each lie in a
/// directory of their own and are named by the package and the identity of the build.
pub proof fn a_build_has_places_of_its_own(
    places: Places,
    storage: StorageManager,
    name: Seq<char>,
    build_id: Seq<char>,
)
    requires
        places.names(storage, name, build_id),
    ensures
        places.install_dir@ == path_join(
            path_join(storage.base_dir@, "installed"@),
            name + "-"@ + build_id,
        ),
        places.archive@ == path_join(
            path_join(storage.base_dir@, "cache"@),
            name + "-"@ + build_id + ".tar.zst"@,
        ),
        storage.scratch_override is None ==> places.scratch@ == path_join(
            path_join(storage.base_dir@, "scratch"@),
            name + "-"@ + build_id,
        ),
        storage.scratch_override is Some ==> places.scratch@ == path_join(
            storage.scratch_override->0@,
            name + "-"@ + build_id,
        ),
{
}

} // verus!
