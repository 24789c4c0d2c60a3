//! Copies of source trees, and patches on them.
use crate::git::list_of;
use crate::text::{cat2, cat3, cat4, same, trim, trimmed, views};
use vstd::prelude::*;
use vstd::string::*;

verus! {

broadcast use vstd::string::group_string_axioms;

pub struct PatchApplier;

/// How a tool that applies patches ended.
#[derive(Debug)]
pub enum ToolOutcome {
    Success,
    Failure { stdout: String, stderr: String },
    NotRun(String),
}

/// How a tool ended, as texts.
pub enum OutcomeView {
    Success,
    Failure { stdout: Seq<char>, stderr: Seq<char> },
    NotRun(Seq<char>),
}

impl View for ToolOutcome {
    type V = OutcomeView;

    open spec fn view(&self) -> OutcomeView {
        match self {
            ToolOutcome::Success => OutcomeView::Success,
            ToolOutcome::Failure { stdout, stderr } => OutcomeView::Failure {
                stdout: stdout@,
                stderr: stderr@,
            },
            ToolOutcome::NotRun(m) => OutcomeView::NotRun(m@),
        }
    }
}

/// What is known of a patch after the tools that were tried so far.
#[derive(Debug)]
pub enum PatchStep {
    Applied,
    TryPatch,
    Failed(String),
}

/// What is known of a patch, as texts.
pub enum PatchStepView {
    Applied,
    TryPatch,
    Failed(Seq<char>),
}

impl View for PatchStep {
    type V = PatchStepView;

    open spec fn view(&self) -> PatchStepView {
        match self {
            PatchStep::Applied => PatchStepView::Applied,
            PatchStep::TryPatch => PatchStepView::TryPatch,
            PatchStep::Failed(m) => PatchStepView::Failed(m@),
        }
    }
}

/// Why `git apply` did not work.
pub open spec fn git_trouble(o: OutcomeView) -> Seq<char> {
    match o {
        OutcomeView::Success => Seq::empty(),
        OutcomeView::Failure { stderr, .. } => "git apply: "@ + trimmed(stderr),
        OutcomeView::NotRun(m) => "git apply: "@ + m,
    }
}

/// Why `patch` did not work.
pub open spec fn patch_trouble(o: OutcomeView) -> Seq<char> {
    match o {
        OutcomeView::Success => Seq::empty(),
        OutcomeView::Failure { stdout, stderr } => "patch: "@ + trimmed(stdout) + trimmed(stderr),
        OutcomeView::NotRun(m) => "patch: "@ + m,
    }
}

/// The message for a patch that no tool could apply.
pub open spec fn patch_failure(path: Seq<char>, git: OutcomeView, patch: OutcomeView) -> Seq<char> {
    "Failed to apply patch "@ + path + ":\n  "@ + (git_trouble(git) + "\n  "@ + patch_trouble(
        patch,
    ))
}

/// What is known of the patch at `path` after `git apply`, and after `patch` where it was tried:
/// the first that works is enough.
pub open spec fn patch_step(
    path: Seq<char>,
    git: OutcomeView,
    patch: Option<OutcomeView>,
) -> PatchStepView {
    if git is Success {
        PatchStepView::Applied
    } else {
        match patch {
            None => PatchStepView::TryPatch,
            Some(OutcomeView::Success) => PatchStepView::Applied,
            Some(p) => PatchStepView::Failed(patch_failure(path, git, p)),
        }
    }
}

/// A patch counts as applied exactly when a tool applied it.
pub proof fn applied_means_a_tool_succeeded(
    path: Seq<char>,
    git: OutcomeView,
    patch: Option<OutcomeView>,
)
    ensures
        patch_step(path, git, patch) is Applied <==> (git is Success || patch
            == Some(OutcomeView::Success)),
{
}

fn git_error(o: &ToolOutcome) -> (r: String)
    ensures
        r@ == git_trouble(o@),
{
    match o {
        ToolOutcome::Success => String::new(),
        ToolOutcome::Failure { stderr, .. } => {
            let t = trim(stderr.as_str());
            cat2("git apply: ", t.as_str())
        },
        ToolOutcome::NotRun(m) => cat2("git apply: ", m.as_str()),
    }
}

fn patch_error(o: &ToolOutcome) -> (r: String)
    ensures
        r@ == patch_trouble(o@),
{
    match o {
        ToolOutcome::Success => String::new(),
        ToolOutcome::Failure { stdout, stderr } => {
            let a = trim(stdout.as_str());
            let b = trim(stderr.as_str());
            cat3("patch: ", a.as_str(), b.as_str())
        },
        ToolOutcome::NotRun(m) => cat2("patch: ", m.as_str()),
    }
}

impl PatchApplier {
    /// Whether an entry of a source tree is copied: all but `.git` at its top.
    pub fn copies_entry(depth: usize, file_name: &str) -> (r: bool)
        ensures
            r == (depth != 1 || file_name@ != ".git"@),
    {
        depth != 1 || !same(file_name, ".git")
    }

    /// The arguments for `git`, before the path of the patch.
    pub fn git_apply_args() -> (r: Vec<String>)
        ensures
            views(r@) == seq!["apply"@, "--ignore-whitespace"@, "--whitespace=nowarn"@, "-p1"@],
    {
        let r = list_of(&["apply", "--ignore-whitespace", "--whitespace=nowarn", "-p1"]);
        assert(views(r@) =~= seq![
            "apply"@,
            "--ignore-whitespace"@,
            "--whitespace=nowarn"@,
            "-p1"@,
        ]);
        r
    }

    /// The arguments for `patch`, before the path of the patch.
    pub fn patch_args() -> (r: Vec<String>)
        ensures
            views(r@) == seq!["-p1"@, "--forward"@, "--batch"@, "-i"@],
    {
        let r = list_of(&["-p1", "--forward", "--batch", "-i"]);
        assert(views(r@) =~= seq!["-p1"@, "--forward"@, "--batch"@, "-i"@]);
        r
    }

    /// What is known of a patch after `git apply`, and after `patch` where it was tried.
    pub fn apply_patch(patch_path: &str, git: &ToolOutcome, patch: Option<&ToolOutcome>) -> (r:
        PatchStep)
        ensures
            r@ == patch_step(
                patch_path@,
                git@,
                match patch {
                    Some(p) => Some(p@),
                    None => None,
                },
            ),
    {
        if let ToolOutcome::Success = git {
            return PatchStep::Applied;
        }
        match patch {
            None => PatchStep::TryPatch,
            Some(ToolOutcome::Success) => PatchStep::Applied,
            Some(p) => {
                let first = git_error(git);
                let second = patch_error(p);
                let both = cat3(first.as_str(), "\n  ", second.as_str());
                PatchStep::Failed(
                    cat4("Failed to apply patch ", patch_path, ":\n  ", both.as_str()),
                )
            },
        }
    }
}

/// A patch that `git apply` takes is applied. Else `patch` is tried; where that fails too the
/// message names the file and what both said.
pub proof fn a_patch_is_tried_with_both_tools(
    path: Seq<char>,
    out: Seq<char>,
    a: Seq<char>,
    b: Seq<char>,
)
    ensures
        ({
            let git = OutcomeView::Failure { stdout: out, stderr: a };
            let head = "Failed to apply patch "@ + path + ":\n  "@;
            &&& patch_step(path, OutcomeView::Success, None) is Applied
            &&& patch_step(path, git, None) is TryPatch
            &&& patch_step(path, OutcomeView::NotRun(a), None) is TryPatch
            &&& patch_step(path, git, Some(OutcomeView::Success)) is Applied
            &&& patch_step(path, git, Some(OutcomeView::Failure { stdout: out, stderr: b }))
                == PatchStepView::Failed(
                head + ("git apply: "@ + trimmed(a) + "\n  "@ + ("patch: "@ + trimmed(out)
                    + trimmed(b))),
            )
            &&& patch_step(path, git, Some(OutcomeView::NotRun(b))) == PatchStepView::Failed(
                head + ("git apply: "@ + trimmed(a) + "\n  "@ + ("patch: "@ + b)),
            )
            &&& patch_step(path, OutcomeView::NotRun(a), Some(OutcomeView::NotRun(b)))
                == PatchStepView::Failed(head + ("git apply: "@ + a + "\n  "@ + ("patch: "@ + b)))
        }),
{
}

} // verus!
