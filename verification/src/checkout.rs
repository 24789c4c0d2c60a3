//! The steps of a checkout: what to ask of git and of the disk next, given what came back.
use crate::git::{
    fetch_args, fetch_args_of, full_fetch_args, full_fetch_args_of, is_commit_id, list_of, ref_text,
    target_name, target_of, update_args, update_args_of, what_is_fetched_is_what_is_resolved, GitRef,
    RefView,
};
use crate::text::{
    cat2, cat3, cat4, cat5, has_prefix, is_all_hex_digits, join, joined, lower, same, starts_with,
    to_lowercase, trim, trimmed, views,
};
use vstd::prelude::*;
use vstd::string::*;

verus! {

broadcast use vstd::string::group_string_axioms;

pub struct GitSource;

/// A directory that is to hold a revision of a repository.
pub struct CheckoutJob<'a> {
    pub url: &'a str,
    pub dest: &'a str,
    pub git_ref: GitRef<'a>,
    pub shallow: bool,
}

/// A job as texts.
pub struct JobView {
    pub url: Seq<char>,
    pub dest: Seq<char>,
    pub git_ref: RefView,
    pub shallow: bool,
}

impl<'a> View for CheckoutJob<'a> {
    type V = JobView;

    open spec fn view(&self) -> JobView {
        JobView {
            url: self.url@,
            dest: self.dest@,
            git_ref: self.git_ref@,
            shallow: self.shallow,
        }
    }
}

/// What a checkout waits for.
#[derive(Debug, Clone, Copy, PartialEq, Eq, Structural)]
pub enum Stage {
    Start,
    Dest,
    GitDir,
    Remote,
    Head,
    Marker,
    TagCommit,
    Removed,
    Created,
    Initialised,
    RemoteAdded,
    Fetched,
    ShallowFile,
    FullyFetched,
    Parsed,
    WasReset,
    Cleaned,
    ModulesFile,
    Synced,
    ShallowlyUpdated,
    Updated,
    ModulesRemoved,
    Unregistered,
    SyncedAgain,
    ShallowlyUpdatedAgain,
    UpdatedAgain,
    FinallyUpdated,
    ModulesCleaned,
    FinalHead,
    Marked,
    Failing,
    Finished,
}

/// Where a checkout stands: its stage, whether the directory was made for it, and a text that the
/// stage needs (the commit that was found, or the error to report).
#[derive(Debug)]
pub struct CheckoutState {
    pub stage: Stage,
    pub fresh: bool,
    pub text: String,
}

/// Where a checkout stands, with its text as a sequence of characters.
pub struct StateView {
    pub stage: Stage,
    pub fresh: bool,
    pub text: Seq<char>,
}

impl View for CheckoutState {
    type V = StateView;

    open spec fn view(&self) -> StateView {
        StateView { stage: self.stage, fresh: self.fresh, text: self.text@ }
    }
}

/// What came back of the last action: the answer to a question, the output of git, the reason why
/// git could not be run, the content of a file, or whether a change on disk was made.
#[derive(Debug)]
pub enum CheckoutEvent {
    Begin,
    Answer(bool),
    Output { success: bool, stdout: String, stderr: String },
    NotRun(String),
    Content(String),
    Worked,
    Failed(String),
}

/// What came back, as texts.
pub enum EventView {
    Begin,
    Answer(bool),
    Output { success: bool, stdout: Seq<char>, stderr: Seq<char> },
    NotRun(Seq<char>),
    Content(Seq<char>),
    Worked,
    Failed(Seq<char>),
}

impl View for CheckoutEvent {
    type V = EventView;

    open spec fn view(&self) -> EventView {
        match self {
            CheckoutEvent::Begin => EventView::Begin,
            CheckoutEvent::Answer(b) => EventView::Answer(*b),
            CheckoutEvent::Output { success, stdout, stderr } => EventView::Output {
                success: *success,
                stdout: stdout@,
                stderr: stderr@,
            },
            CheckoutEvent::NotRun(m) => EventView::NotRun(m@),
            CheckoutEvent::Content(c) => EventView::Content(c@),
            CheckoutEvent::Worked => EventView::Worked,
            CheckoutEvent::Failed(m) => EventView::Failed(m@),
        }
    }
}

/// What to do next. `Git` is run in the directory of the checkout; `DropDest` removes that
/// directory whether or not it works.
#[derive(Debug)]
pub enum CheckoutAction {
    AskDest,
    AskGitDir,
    AskShallowFile,
    AskModulesFile,
    ReadMarker,
    RemoveDest,
    CreateDest,
    RemoveModules,
    DropDest,
    WriteMarker(String),
    Git(Vec<String>),
    Done(Result<String, String>),
}

/// What to do next, as texts.
pub enum ActionView {
    AskDest,
    AskGitDir,
    AskShallowFile,
    AskModulesFile,
    ReadMarker,
    RemoveDest,
    CreateDest,
    RemoveModules,
    DropDest,
    WriteMarker(Seq<char>),
    Git(Seq<Seq<char>>),
    Done(Result<Seq<char>, Seq<char>>),
}

impl View for CheckoutAction {
    type V = ActionView;

    open spec fn view(&self) -> ActionView {
        match self {
            CheckoutAction::AskDest => ActionView::AskDest,
            CheckoutAction::AskGitDir => ActionView::AskGitDir,
            CheckoutAction::AskShallowFile => ActionView::AskShallowFile,
            CheckoutAction::AskModulesFile => ActionView::AskModulesFile,
            CheckoutAction::ReadMarker => ActionView::ReadMarker,
            CheckoutAction::RemoveDest => ActionView::RemoveDest,
            CheckoutAction::CreateDest => ActionView::CreateDest,
            CheckoutAction::RemoveModules => ActionView::RemoveModules,
            CheckoutAction::DropDest => ActionView::DropDest,
            CheckoutAction::WriteMarker(h) => ActionView::WriteMarker(h@),
            CheckoutAction::Git(args) => ActionView::Git(views(args@)),
            CheckoutAction::Done(r) => ActionView::Done(
                match r {
                    Ok(h) => Ok(h@),
                    Err(m) => Err(m@),
                },
            ),
        }
    }
}

// ---------------------------------------------------------------------------
// What an event says
// ---------------------------------------------------------------------------

/// A question answered with yes.
pub open spec fn said_yes(e: EventView) -> bool {
    e == EventView::Answer(true)
}

/// What git printed, trimmed, where it succeeded.
pub open spec fn printed(e: EventView) -> Option<Seq<char>> {
    match e {
        EventView::Output { success: true, stdout, .. } => Some(trimmed(stdout)),
        _ => None,
    }
}

/// Whether git could not even be run.
pub open spec fn not_run(e: EventView) -> Option<Seq<char>> {
    match e {
        EventView::NotRun(m) => Some(m),
        _ => None,
    }
}

/// The error of a git command that must succeed, where `what` says what it was for.
pub open spec fn command_error(e: EventView, what: Seq<char>) -> Option<Seq<char>> {
    match e {
        EventView::Output { success: true, .. } => None,
        EventView::Output { success: false, stderr, .. } => Some(what + ": "@ + trimmed(stderr)),
        EventView::NotRun(m) => Some(m),
        _ => Some(what + ": "@),
    }
}

/// The error of a change on disk.
pub open spec fn disk_error(e: EventView) -> Option<Seq<char>> {
    match e {
        EventView::Failed(m) => Some(m),
        _ => None,
    }
}

/// The message for a git command that could not be run.
pub open spec fn not_run_text(args: Seq<Seq<char>>, cause: Seq<char>) -> Seq<char> {
    "Failed to run git "@ + joined(args, " "@) + ": "@ + cause
}

fn yes(e: &CheckoutEvent) -> (r: bool)
    ensures
        r == said_yes(e@),
{
    match e {
        CheckoutEvent::Answer(b) => *b,
        _ => false,
    }
}

fn output_of(e: &CheckoutEvent) -> (r: Option<String>)
    ensures
        crate::text::opt_view(r) == printed(e@),
{
    match e {
        CheckoutEvent::Output { success, stdout, .. } => if *success {
            Some(trim(stdout.as_str()))
        } else {
            None
        },
        _ => None,
    }
}

fn run_error(e: &CheckoutEvent) -> (r: Option<String>)
    ensures
        crate::text::opt_view(r) == not_run(e@),
{
    match e {
        CheckoutEvent::NotRun(m) => Some(m.clone()),
        _ => None,
    }
}

fn error_of(e: &CheckoutEvent, what: &str) -> (r: Option<String>)
    ensures
        crate::text::opt_view(r) == command_error(e@, what@),
{
    match e {
        CheckoutEvent::Output { success, stderr, .. } => if *success {
            None
        } else {
            let t = trim(stderr.as_str());
            Some(cat3(what, ": ", t.as_str()))
        },
        CheckoutEvent::NotRun(m) => Some(m.clone()),
        _ => Some(cat2(what, ": ")),
    }
}

fn change_error(e: &CheckoutEvent) -> (r: Option<String>)
    ensures
        crate::text::opt_view(r) == disk_error(e@),
{
    match e {
        CheckoutEvent::Failed(m) => Some(m.clone()),
        _ => None,
    }
}

// ---------------------------------------------------------------------------
// The steps
// ---------------------------------------------------------------------------

/// The same checkout at another stage.
pub open spec fn at(s: StateView, stage: Stage) -> StateView {
    StateView { stage, ..s }
}

/// The same checkout at another stage, with another text.
pub open spec fn at_with(s: StateView, stage: Stage, text: Seq<char>) -> StateView {
    StateView { stage, text, ..s }
}

/// The end of a checkout.
pub open spec fn finished(s: StateView, r: Result<Seq<char>, Seq<char>>) -> (StateView, ActionView) {
    (at(s, Stage::Finished), ActionView::Done(r))
}

/// The end of a checkout that went wrong; a directory that was made for it goes first.
pub open spec fn failed(s: StateView, message: Seq<char>) -> (StateView, ActionView) {
    if s.fresh {
        (at_with(s, Stage::Failing, message), ActionView::DropDest)
    } else {
        finished(s, Err(message))
    }
}

/// The next command, unless the last one failed.
pub open spec fn then_git(
    s: StateView,
    error: Option<Seq<char>>,
    stage: Stage,
    args: Seq<Seq<char>>,
) -> (StateView, ActionView) {
    match error {
        Some(m) => failed(s, m),
        None => (at(s, stage), ActionView::Git(args)),
    }
}

/// The first step towards the revision in a directory that can be used.
pub open spec fn syncing(job: JobView, fresh: bool) -> (StateView, ActionView) {
    (
        StateView { stage: Stage::Fetched, fresh, text: Seq::empty() },
        ActionView::Git(fetch_args_of(job.git_ref, job.shallow)),
    )
}

/// The message for a commit that cannot be one.
pub open spec fn invalid_commit_message(c: Seq<char>, url: Seq<char>) -> Seq<char> {
    "Invalid commit '"@ + c + "' for "@ + url + ": expected at least 7 hex characters"@
}

/// What fetching a revision was for.
pub open spec fn fetch_purpose(job: JobView) -> Seq<char> {
    match job.git_ref {
        RefView::Tag(t) => "Failed to fetch tag '"@ + t + "' from "@ + job.url,
        RefView::Branch(b) => "Failed to fetch branch '"@ + b + "' from "@ + job.url,
        RefView::DefaultHead => "Failed to fetch default branch from "@ + job.url,
        RefView::Commit(_) => "Failed to fetch "@ + job.url,
    }
}

/// What a command in the directory of the checkout was for.
pub open spec fn command_purpose(job: JobView, what: Seq<char>) -> Seq<char> {
    what + " failed in "@ + job.dest
}

/// The message for a revision that is not there.
pub open spec fn not_found_message(job: JobView) -> Seq<char> {
    ref_text(job.git_ref) + " not found in "@ + job.url
}

/// The message for a checkout that ended at another commit.
pub open spec fn wrong_head_message(job: JobView, head: Seq<char>, resolved: Seq<char>) -> Seq<
    char,
> {
    "Checkout of "@ + ref_text(job.git_ref) + " in "@ + job.dest + " ended at "@ + head + (
    ", expected "@ + resolved)
}

/// The arguments that ask for the commit of HEAD.
pub open spec fn head_args_of() -> Seq<Seq<char>> {
    seq!["rev-parse"@, "HEAD"@]
}

/// The arguments that ask for the commit of a fetched revision.
pub open spec fn parse_args_of(r: RefView) -> Seq<Seq<char>> {
    seq!["rev-parse"@, "--verify"@, "--quiet"@, target_of(r)]
}

/// The arguments that tell submodules their URLs.
pub open spec fn sync_args_of() -> Seq<Seq<char>> {
    seq!["submodule"@, "sync"@, "--quiet"@, "--recursive"@]
}

/// The arguments that clean submodules.
pub open spec fn module_clean_args_of() -> Seq<Seq<char>> {
    seq![
        "submodule"@,
        "foreach"@,
        "--quiet"@,
        "--recursive"@,
        "git"@,
        "clean"@,
        "-ffdxq"@,
    ]
}

/// The step after an attempt to update submodules: clean them where it worked, else `otherwise`.
pub open spec fn after_update(
    s: StateView,
    e: EventView,
    otherwise: (StateView, ActionView),
) -> (StateView, ActionView) {
    match not_run(e) {
        Some(m) => failed(s, m),
        None => if printed(e) is Some {
            (at(s, Stage::ModulesCleaned), ActionView::Git(module_clean_args_of()))
        } else {
            otherwise
        },
    }
}

/// The first steps of a checkout: whether the directory holds it already, can be used, or has to
/// be made anew.
pub open spec fn next_in_setup(job: JobView, s: StateView, e: EventView) -> (StateView, ActionView) {
    match s.stage {
        Stage::Start => match job.git_ref {
            RefView::Commit(c) => if is_commit_id(c) {
                (at(s, Stage::Dest), ActionView::AskDest)
            } else {
                finished(s, Err(invalid_commit_message(c, job.url)))
            },
            _ => (at(s, Stage::Dest), ActionView::AskDest),
        },
        Stage::Dest => if said_yes(e) {
            (at(s, Stage::GitDir), ActionView::AskGitDir)
        } else {
            (at(s, Stage::Created), ActionView::CreateDest)
        },
        Stage::GitDir => if said_yes(e) {
            (
                at(s, Stage::Remote),
                ActionView::Git(seq!["remote"@, "get-url"@, "origin"@]),
            )
        } else {
            (at(s, Stage::Removed), ActionView::RemoveDest)
        },
        Stage::Remote => if printed(e) == Some(job.url) {
            (at(s, Stage::Head), ActionView::Git(head_args_of()))
        } else {
            (at(s, Stage::Removed), ActionView::RemoveDest)
        },
        Stage::Head => match printed(e) {
            Some(head) => (at_with(s, Stage::Marker, head), ActionView::ReadMarker),
            None => (at(s, Stage::Removed), ActionView::RemoveDest),
        },
        Stage::Marker => {
            let marked = match e {
                EventView::Content(c) => trimmed(c),
                _ => trimmed(""@),
            };
            if marked != s.text {
                syncing(job, false)
            } else {
                match job.git_ref {
                    RefView::Commit(c) => if has_prefix(s.text, lower(c)) {
                        finished(s, Ok(s.text))
                    } else {
                        syncing(job, false)
                    },
                    RefView::Tag(t) => (
                        at(s, Stage::TagCommit),
                        ActionView::Git(seq!["rev-parse"@, "refs/tags/"@ + t + "^{commit}"@]),
                    ),
                    _ => syncing(job, false),
                }
            }
        },
        Stage::TagCommit => if printed(e) == Some(s.text) {
            finished(s, Ok(s.text))
        } else {
            syncing(job, false)
        },
        Stage::Removed => match disk_error(e) {
            Some(m) => finished(s, Err(m)),
            None => (at(s, Stage::Created), ActionView::CreateDest),
        },
        Stage::Created => match disk_error(e) {
            Some(m) => finished(s, Err(m)),
            None => (at(s, Stage::Initialised), ActionView::Git(seq!["init"@, "--quiet"@])),
        },
        Stage::Initialised => then_git(
            s,
            command_error(e, command_purpose(job, "git init"@)),
            Stage::RemoteAdded,
            seq!["remote"@, "add"@, "origin"@, job.url],
        ),
        Stage::RemoteAdded => match command_error(e, command_purpose(job, "git remote add"@)) {
            Some(m) => finished(s, Err(m)),
            None => syncing(job, true),
        },
        _ => finished(s, Err(s.text)),
    }
}

/// The steps that bring a directory to the revision.
pub open spec fn next_in_sync(job: JobView, s: StateView, e: EventView) -> (StateView, ActionView) {
    match s.stage {
        Stage::Fetched => match not_run(e) {
            Some(m) => failed(s, m),
            None => if job.git_ref is Commit && printed(e) is None {
                (at(s, Stage::ShallowFile), ActionView::AskShallowFile)
            } else {
                then_git(
                    s,
                    command_error(e, fetch_purpose(job)),
                    Stage::Parsed,
                    parse_args_of(job.git_ref),
                )
            },
        },
        Stage::ShallowFile => (
            at(s, Stage::FullyFetched),
            ActionView::Git(full_fetch_args_of(said_yes(e))),
        ),
        Stage::FullyFetched => then_git(
            s,
            command_error(e, fetch_purpose(job)),
            Stage::Parsed,
            parse_args_of(job.git_ref),
        ),
        Stage::Parsed => match printed(e) {
            Some(resolved) => (
                at_with(s, Stage::WasReset, resolved),
                ActionView::Git(seq!["reset"@, "--quiet"@, "--hard"@, resolved]),
            ),
            None => failed(s, not_found_message(job)),
        },
        Stage::WasReset => then_git(
            s,
            command_error(e, command_purpose(job, "git reset --hard"@)),
            Stage::Cleaned,
            seq!["clean"@, "-ffdxq"@],
        ),
        Stage::Cleaned => match command_error(e, command_purpose(job, "git clean"@)) {
            Some(m) => failed(s, m),
            None => (at(s, Stage::ModulesFile), ActionView::AskModulesFile),
        },
        Stage::FinalHead => match command_error(e, "git rev-parse HEAD"@) {
            Some(m) => failed(s, m),
            None => {
                let head = printed(e)->0;
                if head != s.text {
                    failed(s, wrong_head_message(job, head, s.text))
                } else {
                    (at(s, Stage::Marked), ActionView::WriteMarker(s.text))
                }
            },
        },
        Stage::Marked => match disk_error(e) {
            Some(m) => failed(s, m),
            None => finished(s, Ok(s.text)),
        },
        _ => finished(s, Err(s.text)),
    }
}

/// The steps that bring submodules to what the revision asks for: a shallow update where that is
/// wanted, a full one where it does not work, and both again with fresh repositories.
pub open spec fn next_in_modules(job: JobView, s: StateView, e: EventView) -> (
    StateView,
    ActionView,
) {
    let synced = command_error(e, command_purpose(job, "git submodule sync"@));
    match s.stage {
        Stage::ModulesFile => if said_yes(e) {
            (at(s, Stage::Synced), ActionView::Git(sync_args_of()))
        } else {
            (at(s, Stage::FinalHead), ActionView::Git(head_args_of()))
        },
        Stage::Synced => then_git(
            s,
            synced,
            if job.shallow {
                Stage::ShallowlyUpdated
            } else {
                Stage::Updated
            },
            update_args_of(job.shallow),
        ),
        Stage::ShallowlyUpdated => after_update(
            s,
            e,
            (at(s, Stage::Updated), ActionView::Git(update_args_of(false))),
        ),
        Stage::Updated => after_update(
            s,
            e,
            (at(s, Stage::ModulesRemoved), ActionView::RemoveModules),
        ),
        Stage::ModulesRemoved => match disk_error(e) {
            Some(m) => failed(s, m),
            None => (
                at(s, Stage::Unregistered),
                ActionView::Git(seq!["submodule"@, "deinit"@, "--all"@, "--force"@, "--quiet"@]),
            ),
        },
        Stage::Unregistered => (at(s, Stage::SyncedAgain), ActionView::Git(sync_args_of())),
        Stage::SyncedAgain => then_git(
            s,
            synced,
            if job.shallow {
                Stage::ShallowlyUpdatedAgain
            } else {
                Stage::UpdatedAgain
            },
            update_args_of(job.shallow),
        ),
        Stage::ShallowlyUpdatedAgain => after_update(
            s,
            e,
            (at(s, Stage::UpdatedAgain), ActionView::Git(update_args_of(false))),
        ),
        Stage::UpdatedAgain => after_update(
            s,
            e,
            (at(s, Stage::FinallyUpdated), ActionView::Git(update_args_of(false))),
        ),
        Stage::FinallyUpdated => then_git(
            s,
            command_error(e, command_purpose(job, "git submodule update"@)),
            Stage::ModulesCleaned,
            module_clean_args_of(),
        ),
        Stage::ModulesCleaned => then_git(
            s,
            command_error(e, command_purpose(job, "git clean in submodules"@)),
            Stage::FinalHead,
            head_args_of(),
        ),
        _ => finished(s, Err(s.text)),
    }
}

/// Whether a stage belongs to the setup.
pub open spec fn in_setup(stage: Stage) -> bool {
    stage == Stage::Start || stage == Stage::Dest || stage == Stage::GitDir || stage
        == Stage::Remote || stage == Stage::Head || stage == Stage::Marker || stage
        == Stage::TagCommit || stage == Stage::Removed || stage == Stage::Created || stage
        == Stage::Initialised || stage == Stage::RemoteAdded
}

/// Whether a stage brings the directory to the revision.
pub open spec fn in_sync(stage: Stage) -> bool {
    stage == Stage::Fetched || stage == Stage::ShallowFile || stage == Stage::FullyFetched || stage
        == Stage::Parsed || stage == Stage::WasReset || stage == Stage::Cleaned || stage
        == Stage::FinalHead || stage == Stage::Marked
}

/// The next step of a checkout.
pub open spec fn next_step(job: JobView, s: StateView, e: EventView) -> (StateView, ActionView) {
    if in_setup(s.stage) {
        next_in_setup(job, s, e)
    } else if in_sync(s.stage) {
        next_in_sync(job, s, e)
    } else {
        next_in_modules(job, s, e)
    }
}

/// Where a checkout starts.
pub open spec fn first_state() -> StateView {
    StateView { stage: Stage::Start, fresh: false, text: Seq::empty() }
}

fn move_to(s: CheckoutState, stage: Stage) -> (r: CheckoutState)
    ensures
        r@ == at(s@, stage),
{
    CheckoutState { stage, fresh: s.fresh, text: s.text }
}

fn move_with(s: CheckoutState, stage: Stage, text: String) -> (r: CheckoutState)
    ensures
        r@ == at_with(s@, stage, text@),
{
    CheckoutState { stage, fresh: s.fresh, text }
}

/// The view of a state and an action.
pub open spec fn step_view(r: (CheckoutState, CheckoutAction)) -> (StateView, ActionView) {
    (r.0@, r.1@)
}

fn finish(s: CheckoutState, r: Result<String, String>) -> (out: (CheckoutState, CheckoutAction))
    ensures
        step_view(out) == finished(
            s@,
            match r {
                Ok(h) => Ok(h@),
                Err(m) => Err(m@),
            },
        ),
{
    (move_to(s, Stage::Finished), CheckoutAction::Done(r))
}

fn fail(s: CheckoutState, message: String) -> (out: (CheckoutState, CheckoutAction))
    ensures
        step_view(out) == failed(s@, message@),
{
    if s.fresh {
        (move_with(s, Stage::Failing, message), CheckoutAction::DropDest)
    } else {
        finish(s, Err(message))
    }
}

fn go_on(s: CheckoutState, error: Option<String>, stage: Stage, args: Vec<String>) -> (out: (
    CheckoutState,
    CheckoutAction,
))
    ensures
        step_view(out) == then_git(s@, crate::text::opt_view(error), stage, views(args@)),
{
    match error {
        Some(m) => fail(s, m),
        None => (move_to(s, stage), CheckoutAction::Git(args)),
    }
}

fn sync(job: &CheckoutJob, fresh: bool) -> (out: (CheckoutState, CheckoutAction))
    ensures
        step_view(out) == syncing(job@, fresh),
{
    (
        CheckoutState { stage: Stage::Fetched, fresh, text: String::new() },
        CheckoutAction::Git(fetch_args(&job.git_ref, job.shallow)),
    )
}

fn purpose(job: &CheckoutJob, what: &str) -> (r: String)
    ensures
        r@ == command_purpose(job@, what@),
{
    cat3(what, " failed in ", job.dest)
}

fn purpose_of_fetch(job: &CheckoutJob) -> (r: String)
    ensures
        r@ == fetch_purpose(job@),
{
    match job.git_ref {
        GitRef::Tag(t) => cat4("Failed to fetch tag '", t, "' from ", job.url),
        GitRef::Branch(b) => cat4("Failed to fetch branch '", b, "' from ", job.url),
        GitRef::DefaultHead => cat2("Failed to fetch default branch from ", job.url),
        GitRef::Commit(_) => cat2("Failed to fetch ", job.url),
    }
}

fn git(args: &[&str]) -> (r: CheckoutAction)
    ensures
        r@ == ActionView::Git(crate::strategy::strs(args@)),
{
    CheckoutAction::Git(list_of(args))
}

fn head_args() -> (r: Vec<String>)
    ensures
        views(r@) == head_args_of(),
{
    let r = list_of(&["rev-parse", "HEAD"]);
    assert(views(r@) =~= head_args_of());
    r
}

fn parse_args(job: &CheckoutJob) -> (r: Vec<String>)
    ensures
        views(r@) == parse_args_of(job.git_ref@),
{
    let target = target_name(&job.git_ref);
    let r = list_of(&["rev-parse", "--verify", "--quiet", target.as_str()]);
    assert(views(r@) =~= parse_args_of(job.git_ref@));
    r
}

fn sync_args() -> (r: Vec<String>)
    ensures
        views(r@) == sync_args_of(),
{
    let r = list_of(&["submodule", "sync", "--quiet", "--recursive"]);
    assert(views(r@) =~= sync_args_of());
    r
}

fn module_clean_args() -> (r: Vec<String>)
    ensures
        views(r@) == module_clean_args_of(),
{
    let r = list_of(
        &["submodule", "foreach", "--quiet", "--recursive", "git", "clean", "-ffdxq"],
    );
    assert(views(r@) =~= module_clean_args_of());
    r
}

fn commit_is_id(c: &str) -> (r: bool)
    ensures
        r == is_commit_id(c@),
{
    c.as_bytes().len() >= 7 && is_all_hex_digits(c)
}

fn marker_is(e: &CheckoutEvent, head: &str) -> (r: bool)
    ensures
        r == (match e@ {
            EventView::Content(c) => trimmed(c),
            _ => trimmed(""@),
        } == head@),
{
    match e {
        CheckoutEvent::Content(c) => {
            let t = trim(c.as_str());
            same(t.as_str(), head)
        },
        _ => {
            let t = trim("");
            same(t.as_str(), head)
        },
    }
}

fn printed_is(e: &CheckoutEvent, text: &str) -> (r: bool)
    ensures
        r == (printed(e@) == Some(text@)),
{
    match output_of(e) {
        Some(t) => same(t.as_str(), text),
        None => false,
    }
}

fn setup_start(job: &CheckoutJob, s: CheckoutState) -> (r: (CheckoutState, CheckoutAction))
    requires
        s.stage == Stage::Start,
    ensures
        forall|e: EventView| step_view(r) == #[trigger] next_in_setup(job@, s@, e),
{
    match job.git_ref {
        GitRef::Commit(c) => if commit_is_id(c) {
            (move_to(s, Stage::Dest), CheckoutAction::AskDest)
        } else {
            finish(
                s,
                Err(
                    cat5(
                        "Invalid commit '",
                        c,
                        "' for ",
                        job.url,
                        ": expected at least 7 hex characters",
                    ),
                ),
            )
        },
        _ => (move_to(s, Stage::Dest), CheckoutAction::AskDest),
    }
}

fn setup_marker(job: &CheckoutJob, s: CheckoutState, e: &CheckoutEvent) -> (r: (
    CheckoutState,
    CheckoutAction,
))
    requires
        s.stage == Stage::Marker,
    ensures
        step_view(r) == next_in_setup(job@, s@, e@),
{
    if !marker_is(e, s.text.as_str()) {
        return sync(job, false);
    }
    match job.git_ref {
        GitRef::Commit(c) => {
            let l = to_lowercase(c);
            if starts_with(s.text.as_str(), l.as_str()) {
                let head = s.text.clone();
                finish(s, Ok(head))
            } else {
                sync(job, false)
            }
        },
        GitRef::Tag(t) => {
            let name = cat3("refs/tags/", t, "^{commit}");
            let act = git(&["rev-parse", name.as_str()]);
            assert(act@->Git_0 =~= seq!["rev-parse"@, "refs/tags/"@ + t@ + "^{commit}"@]);
            (move_to(s, Stage::TagCommit), act)
        },
        _ => sync(job, false),
    }
}

fn step_in_setup(job: &CheckoutJob, s: CheckoutState, e: &CheckoutEvent) -> (r: (
    CheckoutState,
    CheckoutAction,
))
    requires
        in_setup(s.stage),
    ensures
        step_view(r) == next_in_setup(job@, s@, e@),
{
    match s.stage {
        Stage::Start => setup_start(job, s),
        Stage::Dest => if yes(e) {
            (move_to(s, Stage::GitDir), CheckoutAction::AskGitDir)
        } else {
            (move_to(s, Stage::Created), CheckoutAction::CreateDest)
        },
        Stage::GitDir => if yes(e) {
            let act = git(&["remote", "get-url", "origin"]);
            assert(act@->Git_0 =~= seq!["remote"@, "get-url"@, "origin"@]);
            (move_to(s, Stage::Remote), act)
        } else {
            (move_to(s, Stage::Removed), CheckoutAction::RemoveDest)
        },
        Stage::Remote => if printed_is(e, job.url) {
            (move_to(s, Stage::Head), CheckoutAction::Git(head_args()))
        } else {
            (move_to(s, Stage::Removed), CheckoutAction::RemoveDest)
        },
        Stage::Head => match output_of(e) {
            Some(head) => (move_with(s, Stage::Marker, head), CheckoutAction::ReadMarker),
            None => (move_to(s, Stage::Removed), CheckoutAction::RemoveDest),
        },
        Stage::Marker => setup_marker(job, s, e),
        Stage::TagCommit => if printed_is(e, s.text.as_str()) {
            let head = s.text.clone();
            finish(s, Ok(head))
        } else {
            sync(job, false)
        },
        Stage::Removed => match change_error(e) {
            Some(m) => finish(s, Err(m)),
            None => (move_to(s, Stage::Created), CheckoutAction::CreateDest),
        },
        Stage::Created => match change_error(e) {
            Some(m) => finish(s, Err(m)),
            None => {
                let act = git(&["init", "--quiet"]);
                assert(act@->Git_0 =~= seq!["init"@, "--quiet"@]);
                (move_to(s, Stage::Initialised), act)
            },
        },
        Stage::Initialised => {
            let what = purpose(job, "git init");
            let args = list_of(&["remote", "add", "origin", job.url]);
            assert(views(args@) =~= seq!["remote"@, "add"@, "origin"@, job.url@]);
            go_on(s, error_of(e, what.as_str()), Stage::RemoteAdded, args)
        },
        Stage::RemoteAdded => {
            let what = purpose(job, "git remote add");
            match error_of(e, what.as_str()) {
                Some(m) => finish(s, Err(m)),
                None => sync(job, true),
            }
        },
        _ => {
            let m = s.text.clone();
            finish(s, Err(m))
        },
    }
}

fn sync_head(job: &CheckoutJob, s: CheckoutState, e: &CheckoutEvent) -> (r: (
    CheckoutState,
    CheckoutAction,
))
    requires
        s.stage == Stage::FinalHead,
    ensures
        step_view(r) == next_in_sync(job@, s@, e@),
{
    if let Some(m) = error_of(e, "git rev-parse HEAD") {
        return fail(s, m);
    }
    match output_of(e) {
        Some(head) => if !same(head.as_str(), s.text.as_str()) {
            let described = job.git_ref.describe();
            let start = cat5("Checkout of ", described.as_str(), " in ", job.dest, " ended at ");
            let expected = cat2(", expected ", s.text.as_str());
            let m = cat3(start.as_str(), head.as_str(), expected.as_str());
            fail(s, m)
        } else {
            let text = s.text.clone();
            (move_to(s, Stage::Marked), CheckoutAction::WriteMarker(text))
        },
        None => fail(s, String::new()),
    }
}

fn step_in_sync(job: &CheckoutJob, s: CheckoutState, e: &CheckoutEvent) -> (r: (
    CheckoutState,
    CheckoutAction,
))
    requires
        in_sync(s.stage),
    ensures
        step_view(r) == next_in_sync(job@, s@, e@),
{
    match s.stage {
        Stage::Fetched => {
            if let Some(m) = run_error(e) {
                return fail(s, m);
            }
            let is_commit = match job.git_ref {
                GitRef::Commit(_) => true,
                _ => false,
            };
            if is_commit && output_of(e).is_none() {
                (move_to(s, Stage::ShallowFile), CheckoutAction::AskShallowFile)
            } else {
                let what = purpose_of_fetch(job);
                go_on(s, error_of(e, what.as_str()), Stage::Parsed, parse_args(job))
            }
        },
        Stage::ShallowFile => (
            move_to(s, Stage::FullyFetched),
            CheckoutAction::Git(full_fetch_args(yes(e))),
        ),
        Stage::FullyFetched => {
            let what = purpose_of_fetch(job);
            go_on(s, error_of(e, what.as_str()), Stage::Parsed, parse_args(job))
        },
        Stage::Parsed => match output_of(e) {
            Some(resolved) => {
                let act = git(&["reset", "--quiet", "--hard", resolved.as_str()]);
                assert(act@->Git_0 =~= seq!["reset"@, "--quiet"@, "--hard"@, resolved@]);
                (move_with(s, Stage::WasReset, resolved), act)
            },
            None => {
                let described = job.git_ref.describe();
                let m = cat3(described.as_str(), " not found in ", job.url);
                fail(s, m)
            },
        },
        Stage::WasReset => {
            let what = purpose(job, "git reset --hard");
            let args = list_of(&["clean", "-ffdxq"]);
            assert(views(args@) =~= seq!["clean"@, "-ffdxq"@]);
            go_on(s, error_of(e, what.as_str()), Stage::Cleaned, args)
        },
        Stage::Cleaned => {
            let what = purpose(job, "git clean");
            match error_of(e, what.as_str()) {
                Some(m) => fail(s, m),
                None => (move_to(s, Stage::ModulesFile), CheckoutAction::AskModulesFile),
            }
        },
        Stage::FinalHead => sync_head(job, s, e),
        Stage::Marked => match change_error(e) {
            Some(m) => fail(s, m),
            None => {
                let head = s.text.clone();
                finish(s, Ok(head))
            },
        },
        _ => {
            let m = s.text.clone();
            finish(s, Err(m))
        },
    }
}

fn updated(s: CheckoutState, e: &CheckoutEvent, otherwise: Stage, action: CheckoutAction) -> (r: (
    CheckoutState,
    CheckoutAction,
))
    ensures
        step_view(r) == after_update(s@, e@, (at(s@, otherwise), action@)),
{
    match run_error(e) {
        Some(m) => fail(s, m),
        None => if output_of(e).is_some() {
            (move_to(s, Stage::ModulesCleaned), CheckoutAction::Git(module_clean_args()))
        } else {
            (move_to(s, otherwise), action)
        },
    }
}

fn step_in_modules(job: &CheckoutJob, s: CheckoutState, e: &CheckoutEvent) -> (r: (
    CheckoutState,
    CheckoutAction,
))
    ensures
        step_view(r) == next_in_modules(job@, s@, e@),
{
    match s.stage {
        Stage::ModulesFile => if yes(e) {
            (move_to(s, Stage::Synced), CheckoutAction::Git(sync_args()))
        } else {
            (move_to(s, Stage::FinalHead), CheckoutAction::Git(head_args()))
        },
        Stage::Synced => {
            let what = purpose(job, "git submodule sync");
            let next = if job.shallow {
                Stage::ShallowlyUpdated
            } else {
                Stage::Updated
            };
            go_on(s, error_of(e, what.as_str()), next, update_args(job.shallow))
        },
        Stage::ShallowlyUpdated => updated(
            s,
            e,
            Stage::Updated,
            CheckoutAction::Git(update_args(false)),
        ),
        Stage::Updated => updated(s, e, Stage::ModulesRemoved, CheckoutAction::RemoveModules),
        Stage::ModulesRemoved => match change_error(e) {
            Some(m) => fail(s, m),
            None => {
                let act = git(&["submodule", "deinit", "--all", "--force", "--quiet"]);
                assert(act@->Git_0 =~= seq![
                    "submodule"@,
                    "deinit"@,
                    "--all"@,
                    "--force"@,
                    "--quiet"@,
                ]);
                (move_to(s, Stage::Unregistered), act)
            },
        },
        Stage::Unregistered => (move_to(s, Stage::SyncedAgain), CheckoutAction::Git(sync_args())),
        Stage::SyncedAgain => {
            let what = purpose(job, "git submodule sync");
            let next = if job.shallow {
                Stage::ShallowlyUpdatedAgain
            } else {
                Stage::UpdatedAgain
            };
            go_on(s, error_of(e, what.as_str()), next, update_args(job.shallow))
        },
        Stage::ShallowlyUpdatedAgain => updated(
            s,
            e,
            Stage::UpdatedAgain,
            CheckoutAction::Git(update_args(false)),
        ),
        Stage::UpdatedAgain => updated(
            s,
            e,
            Stage::FinallyUpdated,
            CheckoutAction::Git(update_args(false)),
        ),
        Stage::FinallyUpdated => {
            let what = purpose(job, "git submodule update");
            go_on(s, error_of(e, what.as_str()), Stage::ModulesCleaned, module_clean_args())
        },
        Stage::ModulesCleaned => {
            let what = purpose(job, "git clean in submodules");
            go_on(s, error_of(e, what.as_str()), Stage::FinalHead, head_args())
        },
        _ => {
            let m = s.text.clone();
            finish(s, Err(m))
        },
    }
}

impl CheckoutState {
    /// Where a checkout starts.
    pub fn first() -> (r: Self)
        ensures
            r@ == first_state(),
    {
        CheckoutState { stage: Stage::Start, fresh: false, text: String::new() }
    }
}

impl GitSource {
    /// The next step of a checkout: where it stands then, and what to do. It is called with
    /// `CheckoutState::first` and `CheckoutEvent::Begin`, then with what it gave and what came
    /// back of the action, until the action is `Done`. A revision that is not there is an error;
    /// no other is taken instead.
    pub fn fetch_and_checkout(job: &CheckoutJob, state: CheckoutState, event: &CheckoutEvent) -> (r:
        (CheckoutState, CheckoutAction))
        ensures
            step_view(r) == next_step(job@, state@, event@),
    {
        match state.stage {
            Stage::Start
            | Stage::Dest
            | Stage::GitDir
            | Stage::Remote
            | Stage::Head
            | Stage::Marker
            | Stage::TagCommit
            | Stage::Removed
            | Stage::Created
            | Stage::Initialised
            | Stage::RemoteAdded => step_in_setup(job, state, event),
            Stage::Fetched
            | Stage::ShallowFile
            | Stage::FullyFetched
            | Stage::Parsed
            | Stage::WasReset
            | Stage::Cleaned
            | Stage::FinalHead
            | Stage::Marked => step_in_sync(job, state, event),
            _ => step_in_modules(job, state, event),
        }
    }

    /// The arguments that ask git for the commit of HEAD.
    pub fn get_head_commit_args() -> (r: Vec<String>)
        ensures
            views(r@) == head_args_of(),
    {
        head_args()
    }

    /// What a git command that must succeed printed, or its error.
    pub fn capture(args: &[String], event: &CheckoutEvent) -> (r: Result<String, String>)
        ensures
            match r {
                Ok(text) => printed(event@) == Some(text@),
                Err(m) => printed(event@) is None && command_error(
                    event@,
                    "git "@ + joined(views(args@), " "@),
                ) == Some(m@),
            },
    {
        let shown = join(args, " ");
        let what = cat2("git ", shown.as_str());
        match error_of(event, what.as_str()) {
            Some(m) => Err(m),
            None => match output_of(event) {
                Some(text) => Ok(text),
                None => Ok(String::new()),
            },
        }
    }

    /// The commit of HEAD, by what came back of git when it was asked for it, or the error.
    pub fn get_head_commit(event: &CheckoutEvent) -> (r: Result<String, String>)
        ensures
            match r {
                Ok(commit) => printed(event@) == Some(commit@),
                Err(m) => printed(event@) is None && command_error(
                    event@,
                    "git "@ + joined(head_args_of(), " "@),
                ) == Some(m@),
            },
    {
        Self::capture(&head_args(), event)
    }

    /// The message for a git command that could not be run.
    pub fn not_run_message(args: &[String], cause: &str) -> (r: String)
        ensures
            r@ == not_run_text(views(args@), cause@),
    {
        let shown = join(args, " ");
        cat4("Failed to run git ", shown.as_str(), ": ", cause)
    }
}

// ---------------------------------------------------------------------------
// What is promised of a checkout
// ---------------------------------------------------------------------------

/// How many steps are left at most.
pub open spec fn steps_left(stage: Stage) -> nat {
    match stage {
        Stage::Start => 31,
        Stage::Dest => 30,
        Stage::GitDir => 29,
        Stage::Remote => 28,
        Stage::Head => 27,
        Stage::Marker => 26,
        Stage::TagCommit => 25,
        Stage::Removed => 24,
        Stage::Created => 23,
        Stage::Initialised => 22,
        Stage::RemoteAdded => 21,
        Stage::Fetched => 20,
        Stage::ShallowFile => 19,
        Stage::FullyFetched => 18,
        Stage::Parsed => 17,
        Stage::WasReset => 16,
        Stage::Cleaned => 15,
        Stage::ModulesFile => 14,
        Stage::Synced => 13,
        Stage::ShallowlyUpdated => 12,
        Stage::Updated => 11,
        Stage::ModulesRemoved => 10,
        Stage::Unregistered => 9,
        Stage::SyncedAgain => 8,
        Stage::ShallowlyUpdatedAgain => 7,
        Stage::UpdatedAgain => 6,
        Stage::FinallyUpdated => 5,
        Stage::ModulesCleaned => 4,
        Stage::FinalHead => 3,
        Stage::Marked => 2,
        Stage::Failing => 1,
        Stage::Finished => 0,
    }
}

/// Every step leads on: a checkout ends after a bounded number of steps, whatever comes back.
pub proof fn every_step_leads_on(job: JobView, s: StateView, e: EventView)
    requires
        s.stage != Stage::Finished,
    ensures
        steps_left(next_step(job, s, e).0.stage) < steps_left(s.stage),
        next_step(job, s, e).0.stage == Stage::Finished <==> next_step(job, s, e).1 is Done,
{
}

/// Where a checkout stands after some events.
pub open spec fn state_after(job: JobView, events: Seq<EventView>) -> StateView
    decreases events.len(),
{
    if events.len() == 0 {
        first_state()
    } else {
        next_step(job, state_after(job, events.drop_last()), events.last()).0
    }
}

/// What to do after some events.
pub open spec fn action_after(job: JobView, events: Seq<EventView>) -> ActionView {
    next_step(job, state_after(job, events.drop_last()), events.last()).1
}

/// Whether git printed `text` as event `i`.
pub open spec fn printed_at(events: Seq<EventView>, i: int, text: Seq<char>) -> bool {
    printed(events[i]) == Some(text)
}

/// Whether the record of a finished checkout was read as event `i` and says `text`.
pub open spec fn recorded_at(events: Seq<EventView>, i: int, text: Seq<char>) -> bool {
    match events[i] {
        EventView::Content(c) => trimmed(c) == text,
        _ => text == trimmed(""@),
    }
}

/// Whether git printed `text` at some event.
pub open spec fn was_printed(events: Seq<EventView>, text: Seq<char>) -> bool {
    exists|i: int| 0 <= i < events.len() && #[trigger] printed_at(events, i, text)
}

/// Whether git printed `text` at two events.
pub open spec fn was_printed_twice(events: Seq<EventView>, text: Seq<char>) -> bool {
    exists|i: int, j: int|
        0 <= i < j < events.len() && #[trigger] printed_at(events, i, text)
            && #[trigger] printed_at(events, j, text)
}

/// Whether git printed `text` and the record said so too.
pub open spec fn was_recorded(events: Seq<EventView>, text: Seq<char>) -> bool {
    exists|i: int, j: int|
        0 <= i < j < events.len() && #[trigger] printed_at(events, i, text)
            && #[trigger] recorded_at(events, j, text)
}

/// What the events have shown of the text that a stage holds.
spec fn text_is_shown(job: JobView, s: StateView, events: Seq<EventView>) -> bool {
    match s.stage {
        Stage::Marker => was_printed(events, s.text),
        Stage::TagCommit => was_recorded(events, s.text) && job.git_ref is Tag,
        Stage::WasReset
        | Stage::Cleaned
        | Stage::ModulesFile
        | Stage::Synced
        | Stage::ShallowlyUpdated
        | Stage::Updated
        | Stage::ModulesRemoved
        | Stage::Unregistered
        | Stage::SyncedAgain
        | Stage::ShallowlyUpdatedAgain
        | Stage::UpdatedAgain
        | Stage::FinallyUpdated
        | Stage::ModulesCleaned
        | Stage::FinalHead => was_printed(events, s.text),
        Stage::Marked => was_printed_twice(events, s.text),
        _ => true,
    }
}

proof fn lemma_shown_later(events: Seq<EventView>, e: EventView, text: Seq<char>)
    ensures
        was_printed(events, text) ==> was_printed(events.push(e), text),
        was_recorded(events, text) ==> was_recorded(events.push(e), text),
        was_printed_twice(events, text) ==> was_printed_twice(events.push(e), text),
        printed(e) == Some(text) ==> was_printed(events.push(e), text),
        was_printed(events, text) && printed(e) == Some(text) ==> was_printed_twice(
            events.push(e),
            text,
        ),
        was_printed(events, text) && recorded_at(events.push(e), events.len() as int, text)
            ==> was_recorded(events.push(e), text),
{
    let all = events.push(e);
    assert(all[events.len() as int] == e);
    if was_printed(events, text) {
        let i = choose|i: int| 0 <= i < events.len() && #[trigger] printed_at(events, i, text);
        assert(all[i] == events[i]);
        assert(printed_at(all, i, text));
        if printed(e) == Some(text) {
            assert(printed_at(all, events.len() as int, text));
        }
    }
    if was_recorded(events, text) {
        let (i, j) = choose|i: int, j: int|
            0 <= i < j < events.len() && #[trigger] printed_at(events, i, text)
                && #[trigger] recorded_at(events, j, text);
        assert(all[i] == events[i] && all[j] == events[j]);
        assert(printed_at(all, i, text) && recorded_at(all, j, text));
    }
    if was_printed_twice(events, text) {
        let (i, j) = choose|i: int, j: int|
            0 <= i < j < events.len() && #[trigger] printed_at(events, i, text)
                && #[trigger] printed_at(events, j, text);
        assert(all[i] == events[i] && all[j] == events[j]);
        assert(printed_at(all, i, text) && printed_at(all, j, text));
    }
    if printed(e) == Some(text) {
        assert(printed_at(all, events.len() as int, text));
    }
}

proof fn lemma_text_is_shown(job: JobView, events: Seq<EventView>)
    ensures
        text_is_shown(job, state_after(job, events), events),
    decreases events.len(),
{
    if events.len() > 0 {
        let before = events.drop_last();
        let e = events.last();
        let s = state_after(job, before);
        let n = next_step(job, s, e).0;
        lemma_text_is_shown(job, before);
        assert(events =~= before.push(e));
        lemma_shown_later(before, e, s.text);
        lemma_shown_later(before, e, n.text);
    }
}

/// A checkout that succeeds gives a commit that git itself reported: either git named it as the
/// commit of the revision and again as HEAD afterwards, or it named it as HEAD of a directory
/// whose record of a finished checkout says the same. The second way is not taken for a branch or
/// the default HEAD, and for a commit only where that is its beginning.
pub proof fn success_is_confirmed(job: JobView, events: Seq<EventView>, head: Seq<char>)
    requires
        events.len() > 0,
        action_after(job, events) == ActionView::Done(Ok(head)),
    ensures
        was_printed_twice(events, head) || (was_recorded(events, head) && match job.git_ref {
            RefView::Commit(c) => has_prefix(head, lower(c)),
            RefView::Tag(_) => printed(events.last()) == Some(head),
            _ => false,
        }),
{
    let before = events.drop_last();
    let e = events.last();
    let s = state_after(job, before);
    lemma_text_is_shown(job, before);
    assert(events =~= before.push(e));
    lemma_shown_later(before, e, s.text);
}

/// A revision that is not there is an error. Nothing else is checked out in its place, and a
/// directory that was made for it does not stay.
pub proof fn a_missing_revision_is_an_error(
    job: JobView,
    s: StateView,
    e: EventView,
    later: EventView,
)
    requires
        s.stage == Stage::Parsed,
        printed(e) is None,
    ensures
        s.fresh ==> next_step(job, s, e).1 == ActionView::DropDest && next_step(
            job,
            next_step(job, s, e).0,
            later,
        ).1 == ActionView::Done(Err(not_found_message(job))),
        !s.fresh ==> next_step(job, s, e).1 == ActionView::Done(Err(not_found_message(job))),
{
}

/// The record of a finished checkout is only written when HEAD is the commit of the revision.
pub proof fn the_record_is_written_last(job: JobView, s: StateView, e: EventView, head: Seq<char>)
    requires
        next_step(job, s, e).1 == ActionView::WriteMarker(head),
    ensures
        s.stage == Stage::FinalHead,
        s.text == head,
        printed(e) == Some(head),
{
}

/// A commit that is not given by enough hexadecimal digits is refused before anything is done.
pub proof fn a_bad_commit_is_refused_at_once(job: JobView, c: Seq<char>, e: EventView)
    requires
        job.git_ref == RefView::Commit(c),
        !is_commit_id(c),
    ensures
        next_step(job, first_state(), e).1 == ActionView::Done(
            Err(invalid_commit_message(c, job.url)),
        ),
{
}

/// A command that worked and printed `out`.
pub open spec fn worked(out: Seq<char>) -> EventView {
    EventView::Output { success: true, stdout: out, stderr: Seq::empty() }
}

/// A command that ran, failed and complained with `complaint`.
pub open spec fn complained(complaint: Seq<char>) -> EventView {
    EventView::Output { success: false, stdout: Seq::empty(), stderr: complaint }
}

/// A directory that is not there is made, gets a repository with the url as `origin`, and the
/// revision is fetched into it.
pub proof fn a_new_checkout_starts_from_nothing(job: JobView, out: Seq<char>)
    requires
        job.git_ref matches RefView::Commit(c) ==> is_commit_id(c),
    ensures
        ({
            let a = next_step(job, first_state(), EventView::Begin);
            let b = next_step(job, a.0, EventView::Answer(false));
            let c = next_step(job, b.0, EventView::Worked);
            let d = next_step(job, c.0, worked(out));
            let e = next_step(job, d.0, worked(out));
            &&& a.1 == ActionView::AskDest
            &&& b.1 == ActionView::CreateDest
            &&& c.1 == ActionView::Git(seq!["init"@, "--quiet"@])
            &&& d.1 == ActionView::Git(seq!["remote"@, "add"@, "origin"@, job.url])
            &&& e.1 == ActionView::Git(fetch_args_of(job.git_ref, job.shallow))
            &&& e.0.stage == Stage::Fetched
            &&& e.0.fresh
        }),
{
}

/// A directory that is no repository, has another origin or no commit is taken away, and the
/// checkout starts from nothing; where it stays in the way, that is the error.
pub proof fn a_foreign_directory_is_taken_away(
    job: JobView,
    s: StateView,
    e: EventView,
    m: Seq<char>,
)
    requires
        s.stage == Stage::GitDir && e != EventView::Answer(true) || s.stage == Stage::Remote
            && printed(e) != Some(job.url) || s.stage == Stage::Head && printed(e) is None,
    ensures
        next_step(job, s, e).1 == ActionView::RemoveDest,
        next_step(job, next_step(job, s, e).0, EventView::Worked).1 == ActionView::CreateDest,
        next_step(job, next_step(job, s, e).0, EventView::Failed(m)).1 == ActionView::Done(Err(m)),
{
}

/// A repository with the same origin whose HEAD was recorded is left alone where it holds the
/// commit that is asked for; where it does not, or where a branch is asked for, the revision is
/// fetched; of a tag the commit is asked for first.
pub proof fn a_recorded_checkout_is_used_again(
    job: JobView,
    s: StateView,
    head: Seq<char>,
    note: Seq<char>,
)
    requires
        s.stage == Stage::GitDir,
        head == trimmed(head),
        job.url == trimmed(job.url),
    ensures
        ({
            let a = next_step(job, s, EventView::Answer(true));
            let b = next_step(job, a.0, worked(job.url));
            let c = next_step(job, b.0, worked(head));
            let d = next_step(job, c.0, EventView::Content(note));
            let fetched = d.1 == ActionView::Git(fetch_args_of(job.git_ref, job.shallow))
                && d.0.stage == Stage::Fetched && !d.0.fresh;
            &&& a.1 == ActionView::Git(seq!["remote"@, "get-url"@, "origin"@])
            &&& b.1 == ActionView::Git(seq!["rev-parse"@, "HEAD"@])
            &&& c.1 == ActionView::ReadMarker
            &&& trimmed(note) != head ==> fetched
            &&& job.git_ref is Branch || job.git_ref is DefaultHead ==> fetched
            &&& trimmed(note) == head ==> match job.git_ref {
                RefView::Commit(x) => {
                    &&& has_prefix(head, lower(x)) ==> d.1 == ActionView::Done(Ok(head))
                    &&& !has_prefix(head, lower(x)) ==> fetched
                },
                RefView::Tag(t) => {
                    let e = next_step(job, d.0, worked(head));
                    &&& d.1 == ActionView::Git(
                        seq!["rev-parse"@, "refs/tags/"@ + t + "^{commit}"@],
                    )
                    &&& e.1 == ActionView::Done(Ok(head))
                    &&& forall|other: Seq<char>|
                        trimmed(other) != head ==> next_step(job, d.0, #[trigger] worked(other)).1
                            == ActionView::Git(fetch_args_of(job.git_ref, job.shallow))
                },
                _ => fetched,
            }
        }),
{
}

/// What was fetched is resolved by the name it was fetched to, the directory is reset to the
/// commit that comes back and everything else is taken out of it; the commit is recorded and
/// reported once HEAD is that commit.
pub proof fn what_was_fetched_is_checked_out(
    job: JobView,
    s: StateView,
    out: Seq<char>,
    found: Seq<char>,
)
    requires
        s.stage == Stage::Fetched || s.stage == Stage::FullyFetched,
        found == trimmed(found),
    ensures
        ({
            let a = next_step(job, s, worked(out));
            let b = next_step(job, a.0, worked(found));
            let c = next_step(job, b.0, worked(out));
            let d = next_step(job, c.0, worked(out));
            let e = next_step(job, d.0, EventView::Answer(false));
            let f = next_step(job, e.0, worked(found));
            let g = next_step(job, f.0, EventView::Worked);
            &&& a.1 matches ActionView::Git(args) && args.len() == 4 && args.take(3) == seq![
                "rev-parse"@,
                "--verify"@,
                "--quiet"@,
            ] && match job.git_ref {
                RefView::Branch(x) => fetch_args_of(job.git_ref, job.shallow).last()
                    == "+refs/heads/"@ + x + ":"@ + args[3],
                RefView::Tag(x) => args[3] == "refs/tags/"@ + x + "^{commit}"@,
                RefView::Commit(x) => args[3] == x + "^{commit}"@,
                RefView::DefaultHead => args[3] == "FETCH_HEAD"@,
            }
            &&& b.1 == ActionView::Git(seq!["reset"@, "--quiet"@, "--hard"@, found])
            &&& c.1 == ActionView::Git(seq!["clean"@, "-ffdxq"@])
            &&& d.1 == ActionView::AskModulesFile
            &&& e.1 == ActionView::Git(seq!["rev-parse"@, "HEAD"@])
            &&& f.1 == ActionView::WriteMarker(found)
            &&& g.1 == ActionView::Done(Ok(found))
        }),
{
    let a = next_step(job, s, worked(out));
    let args = a.1->Git_0;
    assert(args.take(3) =~= seq!["rev-parse"@, "--verify"@, "--quiet"@]);
    if let RefView::Branch(x) = job.git_ref {
        what_is_fetched_is_what_is_resolved(x, job.shallow);
    }
}

/// Where HEAD is another commit than the one that was resolved, nothing is recorded and the error
/// names both.
pub proof fn another_head_is_an_error(job: JobView, s: StateView, head: Seq<char>)
    requires
        s.stage == Stage::FinalHead,
        trimmed(head) != s.text,
    ensures
        ({
            let message = "Checkout of "@ + ref_text(job.git_ref) + " in "@ + job.dest
                + " ended at "@ + trimmed(head) + (", expected "@ + s.text);
            let a = next_step(job, s, worked(head));
            &&& !s.fresh ==> a.1 == ActionView::Done(Err(message))
            &&& s.fresh ==> a.1 == ActionView::DropDest && next_step(
                job,
                a.0,
                EventView::Worked,
            ).1 == ActionView::Done(Err(message))
        }),
{
}

/// A commit that cannot be fetched by its number is looked for in everything that can be fetched;
/// history that was cut off is asked for too.
pub proof fn a_commit_is_looked_for_in_everything(
    job: JobView,
    s: StateView,
    complaint: Seq<char>,
    cut_off: bool,
)
    requires
        job.git_ref is Commit,
        s.stage == Stage::Fetched,
    ensures
        ({
            let a = next_step(job, s, complained(complaint));
            let b = next_step(job, a.0, EventView::Answer(cut_off));
            &&& a.1 == ActionView::AskShallowFile
            &&& b.1 == ActionView::Git(full_fetch_args_of(cut_off))
            &&& b.0.stage == Stage::FullyFetched
            &&& b.0.fresh == s.fresh
        }),
{
}

/// Where a fetch fails for good the error names the revision, the url and the complaint. A
/// directory that was made for the checkout is taken away first; one that was there stays.
pub proof fn a_failed_fetch_says_what_was_asked_for(
    job: JobView,
    s: StateView,
    complaint: Seq<char>,
    later: EventView,
)
    requires
        s.stage == Stage::Fetched && !(job.git_ref is Commit) || s.stage == Stage::FullyFetched,
    ensures
        ({
            let message = (match job.git_ref {
                RefView::Tag(t) => "Failed to fetch tag '"@ + t + "' from "@ + job.url,
                RefView::Branch(b) => "Failed to fetch branch '"@ + b + "' from "@ + job.url,
                RefView::DefaultHead => "Failed to fetch default branch from "@ + job.url,
                RefView::Commit(_) => "Failed to fetch "@ + job.url,
            }) + ": "@ + trimmed(complaint);
            let a = next_step(job, s, complained(complaint));
            &&& !s.fresh ==> a.1 == ActionView::Done(Err(message))
            &&& s.fresh ==> a.1 == ActionView::DropDest && next_step(job, a.0, later).1
                == ActionView::Done(Err(message))
        }),
{
}

/// Where a command fails that makes or changes the directory, the error names the command, the
/// directory and the complaint.
pub proof fn a_failed_command_is_named(
    job: JobView,
    s: StateView,
    complaint: Seq<char>,
    later: EventView,
    command: Seq<char>,
)
    requires
        match s.stage {
            Stage::Initialised => command == "git init"@,
            Stage::RemoteAdded => command == "git remote add"@ && !s.fresh,
            Stage::WasReset => command == "git reset --hard"@,
            Stage::Cleaned => command == "git clean"@,
            Stage::Synced | Stage::SyncedAgain => command == "git submodule sync"@,
            Stage::FinallyUpdated => command == "git submodule update"@,
            Stage::ModulesCleaned => command == "git clean in submodules"@,
            _ => false,
        },
    ensures
        ({
            let message = command + " failed in "@ + job.dest + ": "@ + trimmed(complaint);
            let a = next_step(job, s, complained(complaint));
            &&& !s.fresh ==> a.1 == ActionView::Done(Err(message))
            &&& s.fresh ==> a.1 == ActionView::DropDest && next_step(job, a.0, later).1
                == ActionView::Done(Err(message))
        }),
{
}

/// Submodules are brought to the url and the commit that are recorded for them and everything
/// else is taken out of them, before HEAD is asked for.
pub proof fn submodules_follow_the_checkout(job: JobView, s: StateView, out: Seq<char>)
    requires
        s.stage == Stage::ModulesFile,
    ensures
        ({
            let a = next_step(job, s, EventView::Answer(true));
            let b = next_step(job, a.0, worked(out));
            let c = next_step(job, b.0, worked(out));
            let d = next_step(job, c.0, worked(out));
            &&& a.1 == ActionView::Git(seq!["submodule"@, "sync"@, "--quiet"@, "--recursive"@])
            &&& b.1 == ActionView::Git(update_args_of(job.shallow))
            &&& c.1 == ActionView::Git(
                seq![
                    "submodule"@,
                    "foreach"@,
                    "--quiet"@,
                    "--recursive"@,
                    "git"@,
                    "clean"@,
                    "-ffdxq"@,
                ],
            )
            &&& d.1 == ActionView::Git(seq!["rev-parse"@, "HEAD"@])
            &&& d.0.stage == Stage::FinalHead
            &&& d.0.text == s.text
            &&& d.0.fresh == s.fresh
        }),
{
}

/// Where submodules cannot be updated with one commit of history, all of it is asked for; where
/// that fails too they are made anew, with `submodule update` once more at the end.
pub proof fn submodules_that_fail_are_made_anew(
    job: JobView,
    s: StateView,
    out: Seq<char>,
    complaint: Seq<char>,
)
    requires
        s.stage == Stage::Synced,
    ensures
        ({
            let failed_twice = |t: StateView|
                if job.shallow {
                    next_step(job, next_step(job, t, complained(complaint)).0, complained(complaint))
                } else {
                    next_step(job, t, complained(complaint))
                };
            let a = next_step(job, s, worked(out));
            let b = failed_twice(a.0);
            let c = next_step(job, b.0, EventView::Worked);
            let d = next_step(job, c.0, worked(out));
            let e = next_step(job, d.0, worked(out));
            let f = failed_twice(e.0);
            &&& job.shallow ==> next_step(job, a.0, complained(complaint)).1 == ActionView::Git(
                update_args_of(false),
            )
            &&& b.1 == ActionView::RemoveModules
            &&& c.1 == ActionView::Git(
                seq!["submodule"@, "deinit"@, "--all"@, "--force"@, "--quiet"@],
            )
            &&& d.1 == ActionView::Git(seq!["submodule"@, "sync"@, "--quiet"@, "--recursive"@])
            &&& e.1 == ActionView::Git(update_args_of(job.shallow))
            &&& f.1 == ActionView::Git(update_args_of(false))
            &&& f.0.stage == Stage::FinallyUpdated
            &&& f.0.text == s.text
        }),
{
}

/// A revision that was not found is named together with the url, and a commit that is refused
/// with what is asked of it.
pub proof fn a_revision_is_named_in_its_errors(job: JobView, c: Seq<char>, args: Seq<Seq<char>>)
    ensures
        not_found_message(job) == ref_text(job.git_ref) + " not found in "@ + job.url,
        invalid_commit_message(c, job.url) == "Invalid commit '"@ + c + "' for "@ + job.url
            + ": expected at least 7 hex characters"@,
        not_run_text(args, c) == "Failed to run git "@ + joined(args, " "@) + ": "@ + c,
        printed(complained(c)) is None,
        printed(worked(c)) == Some(trimmed(c)),
{
}

} // verus!
