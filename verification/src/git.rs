//! Checkouts of git repositories: which revision is asked for, and how a directory is brought
//! to it.
use crate::strategy::strs;
use crate::text::{opt_view, all_hex_digits, cat2, cat3, cat4, views};
use vstd::prelude::*;
use vstd::string::*;
use vstd::utf8::{encode_utf8, is_ascii_chars, is_ascii_chars_encode_utf8};

verus! {

broadcast use vstd::string::group_string_axioms;

/// A revision. Where a manifest names several, a commit comes before a tag, a tag before a branch,
/// and the default HEAD stands for none.
#[derive(Debug, Clone, Copy, PartialEq, Eq)]
pub enum GitRef<'a> {
    Commit(&'a str),
    Tag(&'a str),
    Branch(&'a str),
    DefaultHead,
}

/// A revision with its name as a sequence of characters.
pub enum RefView {
    Commit(Seq<char>),
    Tag(Seq<char>),
    Branch(Seq<char>),
    DefaultHead,
}

impl<'a> View for GitRef<'a> {
    type V = RefView;

    open spec fn view(&self) -> RefView {
        match self {
            GitRef::Commit(c) => RefView::Commit(c@),
            GitRef::Tag(t) => RefView::Tag(t@),
            GitRef::Branch(b) => RefView::Branch(b@),
            GitRef::DefaultHead => RefView::DefaultHead,
        }
    }
}

/// An optional borrowed text as a view.
pub open spec fn opt_str(o: Option<&str>) -> Option<Seq<char>> {
    match o {
        Some(s) => Some(s@),
        None => None,
    }
}

/// The text that is held, if any.
pub fn as_str_opt(o: &Option<String>) -> (r: Option<&str>)
    ensures
        opt_str(r) == opt_view(*o),
{
    match o {
        Some(s) => Some(s.as_str()),
        None => None,
    }
}

/// The revision that a commit, a tag and a branch stand for together.
pub open spec fn ref_of(
    commit: Option<Seq<char>>,
    tag: Option<Seq<char>>,
    branch: Option<Seq<char>>,
) -> RefView {
    match (commit, tag, branch) {
        (Some(c), _, _) => RefView::Commit(c),
        (None, Some(t), _) => RefView::Tag(t),
        (None, None, Some(b)) => RefView::Branch(b),
        (None, None, None) => RefView::DefaultHead,
    }
}

/// How a message speaks of a revision.
pub open spec fn ref_text(r: RefView) -> Seq<char> {
    match r {
        RefView::Commit(c) => "commit "@ + c,
        RefView::Tag(t) => "tag "@ + t,
        RefView::Branch(b) => "branch "@ + b,
        RefView::DefaultHead => "default branch"@,
    }
}

impl<'a> GitRef<'a> {
    pub fn from_parts(commit: Option<&'a str>, tag: Option<&'a str>, branch: Option<&'a str>) -> (r:
        Self)
        ensures
            r@ == ref_of(opt_str(commit), opt_str(tag), opt_str(branch)),
    {
        match (commit, tag, branch) {
            (Some(c), _, _) => GitRef::Commit(c),
            (None, Some(t), _) => GitRef::Tag(t),
            (None, None, Some(b)) => GitRef::Branch(b),
            (None, None, None) => GitRef::DefaultHead,
        }
    }

    /// Whether the revision moves over time, so that it has to be looked up in every run.
    pub fn is_floating(&self) -> (r: bool)
        ensures
            r == (self@ is Branch || self@ is DefaultHead),
    {
        matches!(self, GitRef::Branch(_) | GitRef::DefaultHead)
    }

    /// How a message speaks of the revision.
    pub fn describe(&self) -> (r: String)
        ensures
            r@ == ref_text(self@),
    {
        match self {
            GitRef::Commit(c) => cat2("commit ", c),
            GitRef::Tag(t) => cat2("tag ", t),
            GitRef::Branch(b) => cat2("branch ", b),
            GitRef::DefaultHead => "default branch".to_owned(),
        }
    }
}

/// A revision that moves is neither a commit nor a tag.
pub proof fn pins_do_not_move(
    commit: Option<Seq<char>>,
    tag: Option<Seq<char>>,
    branch: Option<Seq<char>>,
)
    ensures
        (ref_of(commit, tag, branch) is Branch || ref_of(commit, tag, branch) is DefaultHead) <==> (
        commit is None && tag is None),
{
}

// ---------------------------------------------------------------------------
// Arguments
// ---------------------------------------------------------------------------

/// The file in `.git` that records the commit of a finished checkout. It is written last, so that
/// a checkout that was interrupted is found out.
pub const CHECKOUT_MARKER: &'static str = "unideps-checkout";

/// Whether a commit is given by at least seven hexadecimal digits.
pub open spec fn is_commit_id(c: Seq<char>) -> bool {
    encode_utf8(c).len() >= 7 && all_hex_digits(c)
}

/// What is fetched for a revision.
pub open spec fn refspec_of(r: RefView) -> Seq<char> {
    match r {
        RefView::Tag(t) => "+refs/tags/"@ + t + ":refs/tags/"@ + t,
        RefView::Branch(b) => "+refs/heads/"@ + b + ":refs/remotes/origin/"@ + b,
        RefView::DefaultHead => "HEAD"@,
        RefView::Commit(c) => c,
    }
}

/// The name of a revision after it was fetched.
pub open spec fn target_of(r: RefView) -> Seq<char> {
    match r {
        RefView::Tag(t) => "refs/tags/"@ + t + "^{commit}"@,
        RefView::Branch(b) => "refs/remotes/origin/"@ + b,
        RefView::DefaultHead => "FETCH_HEAD"@,
        RefView::Commit(c) => c + "^{commit}"@,
    }
}

/// The arguments that fetch a revision.
pub open spec fn fetch_args_of(r: RefView, shallow: bool) -> Seq<Seq<char>> {
    if shallow {
        seq![
            "fetch"@,
            "--quiet"@,
            "--force"@,
            "--depth"@,
            "1"@,
            "origin"@,
            refspec_of(r),
        ]
    } else {
        seq!["fetch"@, "--quiet"@, "--force"@, "origin"@, refspec_of(r)]
    }
}

/// The arguments that fetch everything, for servers that do not hand out single commits.
pub open spec fn full_fetch_args_of(is_shallow: bool) -> Seq<Seq<char>> {
    if is_shallow {
        seq![
            "fetch"@,
            "--quiet"@,
            "--tags"@,
            "--unshallow"@,
            "origin"@,
            "+refs/heads/*:refs/remotes/origin/*"@,
        ]
    } else {
        seq![
            "fetch"@,
            "--quiet"@,
            "--tags"@,
            "origin"@,
            "+refs/heads/*:refs/remotes/origin/*"@,
        ]
    }
}

/// The arguments that update submodules.
pub open spec fn update_args_of(shallow: bool) -> Seq<Seq<char>> {
    if shallow {
        seq![
            "submodule"@,
            "update"@,
            "--init"@,
            "--recursive"@,
            "--force"@,
            "--depth"@,
            "1"@,
        ]
    } else {
        seq!["submodule"@, "update"@, "--init"@, "--recursive"@, "--force"@]
    }
}

/// Copies of borrowed texts.
pub fn list_of(args: &[&str]) -> (r: Vec<String>)
    ensures
        views(r@) == strs(args@),
{
    let mut out: Vec<String> = Vec::new();
    let mut i: usize = 0;
    while i < args.len()
        invariant
            i <= args@.len(),
            out@.len() == i,
            forall|k: int| 0 <= k < i ==> #[trigger] out@[k]@ == args@[k]@,
        decreases args@.len() - i,
    {
        out.push(args[i].to_owned());
        i = i + 1;
    }
    assert(views(out@) =~= strs(args@));
    out
}

fn refspec(r: &GitRef) -> (s: String)
    ensures
        s@ == refspec_of(r@),
{
    match r {
        GitRef::Tag(t) => cat4("+refs/tags/", t, ":refs/tags/", t),
        GitRef::Branch(b) => cat4("+refs/heads/", b, ":refs/remotes/origin/", b),
        GitRef::DefaultHead => "HEAD".to_owned(),
        GitRef::Commit(c) => (*c).to_owned(),
    }
}

/// The name of a revision after it was fetched.
pub fn target_name(r: &GitRef) -> (s: String)
    ensures
        s@ == target_of(r@),
{
    match r {
        GitRef::Tag(t) => cat3("refs/tags/", t, "^{commit}"),
        GitRef::Branch(b) => cat2("refs/remotes/origin/", b),
        GitRef::DefaultHead => "FETCH_HEAD".to_owned(),
        GitRef::Commit(c) => cat2(c, "^{commit}"),
    }
}

/// The arguments that fetch a revision.
pub fn fetch_args(r: &GitRef, shallow: bool) -> (v: Vec<String>)
    ensures
        views(v@) == fetch_args_of(r@, shallow),
{
    let spec = refspec(r);
    let v = if shallow {
        list_of(&["fetch", "--quiet", "--force", "--depth", "1", "origin", spec.as_str()])
    } else {
        list_of(&["fetch", "--quiet", "--force", "origin", spec.as_str()])
    };
    assert(views(v@) =~= fetch_args_of(r@, shallow));
    v
}

/// The arguments that fetch everything.
pub fn full_fetch_args(is_shallow: bool) -> (v: Vec<String>)
    ensures
        views(v@) == full_fetch_args_of(is_shallow),
{
    let v = if is_shallow {
        list_of(
            &[
                "fetch",
                "--quiet",
                "--tags",
                "--unshallow",
                "origin",
                "+refs/heads/*:refs/remotes/origin/*",
            ],
        )
    } else {
        list_of(&["fetch", "--quiet", "--tags", "origin", "+refs/heads/*:refs/remotes/origin/*"])
    };
    assert(views(v@) =~= full_fetch_args_of(is_shallow));
    v
}

/// The arguments that update submodules.
pub fn update_args(shallow: bool) -> (v: Vec<String>)
    ensures
        views(v@) == update_args_of(shallow),
{
    let v = if shallow {
        list_of(&["submodule", "update", "--init", "--recursive", "--force", "--depth", "1"])
    } else {
        list_of(&["submodule", "update", "--init", "--recursive", "--force"])
    };
    assert(views(v@) =~= update_args_of(shallow));
    v
}

// ---------------------------------------------------------------------------
// What is promised of revisions
// ---------------------------------------------------------------------------

/// A branch is fetched from where branches lie, to the name that is resolved for it later; a tag
/// from where tags lie, to the name whose commit is resolved; the default branch is fetched as
/// `HEAD` and resolved as what was fetched; a commit is fetched and resolved by its number.
pub proof fn what_is_fetched_is_what_is_resolved(name: Seq<char>, shallow: bool)
    ensures
        fetch_args_of(RefView::Branch(name), shallow).last() == "+refs/heads/"@ + name + ":"@
            + target_of(RefView::Branch(name)),
        target_of(RefView::Branch(name)) == "refs/remotes/origin/"@ + name,
        fetch_args_of(RefView::Tag(name), shallow).last() == "+refs/tags/"@ + name + ":"@
            + "refs/tags/"@ + name,
        target_of(RefView::Tag(name)) == "refs/tags/"@ + name + "^{commit}"@,
        fetch_args_of(RefView::DefaultHead, shallow).last() == "HEAD"@,
        target_of(RefView::DefaultHead) == "FETCH_HEAD"@,
        fetch_args_of(RefView::Commit(name), shallow).last() == name,
        target_of(RefView::Commit(name)) == name + "^{commit}"@,
{
    reveal_strlit(":");
    reveal_strlit("refs/tags/");
    reveal_strlit(":refs/tags/");
    reveal_strlit("refs/remotes/origin/");
    reveal_strlit(":refs/remotes/origin/");
    assert(":refs/tags/"@ =~= ":"@ + "refs/tags/"@);
    assert(":refs/remotes/origin/"@ =~= ":"@ + "refs/remotes/origin/"@);
    assert(fetch_args_of(RefView::Tag(name), shallow).last() =~= "+refs/tags/"@ + name + ":"@
        + "refs/tags/"@ + name);
    assert(fetch_args_of(RefView::Branch(name), shallow).last() =~= "+refs/heads/"@ + name + ":"@
        + target_of(RefView::Branch(name)));
}

proof fn lemma_fetch_words()
    ensures
        "fetch"@.len() == 5,
        "--quiet"@ == seq!['-', '-', 'q', 'u', 'i', 'e', 't'],
        "--force"@ == seq!['-', '-', 'f', 'o', 'r', 'c', 'e'],
        "--depth"@ == seq!['-', '-', 'd', 'e', 'p', 't', 'h'],
        "origin"@.len() == 6,
        "--tags"@.len() == 6,
        "--unshallow"@.len() == 11,
        "+refs/heads/*:refs/remotes/origin/*"@.len() == 35,
        "submodule"@.len() == 9,
        "update"@.len() == 6,
        "--init"@.len() == 6,
        "--recursive"@.len() == 11,
{
    reveal_strlit("fetch");
    reveal_strlit("--quiet");
    reveal_strlit("--force");
    reveal_strlit("--depth");
    reveal_strlit("origin");
    reveal_strlit("--tags");
    reveal_strlit("--unshallow");
    reveal_strlit("+refs/heads/*:refs/remotes/origin/*");
    reveal_strlit("submodule");
    reveal_strlit("update");
    reveal_strlit("--init");
    reveal_strlit("--recursive");
    assert("--quiet"@ =~= seq!['-', '-', 'q', 'u', 'i', 'e', 't']);
    assert("--force"@ =~= seq!['-', '-', 'f', 'o', 'r', 'c', 'e']);
    assert("--depth"@ =~= seq!['-', '-', 'd', 'e', 'p', 't', 'h']);
}

/// Only a shallow checkout asks for one commit of history, of the repository and of its
/// submodules; both come from `origin`, and what is there gives way.
pub proof fn a_shallow_fetch_asks_for_one_commit(r: RefView, shallow: bool)
    ensures
        fetch_args_of(r, shallow)[0] == "fetch"@,
        fetch_args_of(r, shallow)[fetch_args_of(r, shallow).len() - 2] == "origin"@,
        fetch_args_of(r, shallow).contains("--force"@),
        fetch_args_of(r, shallow).drop_last().contains("--depth"@) <==> shallow,
        shallow ==> exists|i: int|
            #![trigger fetch_args_of(r, shallow)[i]]
            0 <= i < fetch_args_of(r, shallow).len() - 2 && fetch_args_of(r, shallow)[i]
                == "--depth"@ && fetch_args_of(r, shallow)[i + 1] == "1"@,
        update_args_of(shallow).take(2) == seq!["submodule"@, "update"@],
        update_args_of(shallow).contains("--init"@),
        update_args_of(shallow).contains("--recursive"@),
        update_args_of(shallow).contains("--force"@),
        update_args_of(shallow).contains("--depth"@) <==> shallow,
        shallow ==> update_args_of(shallow).skip(5) == seq!["--depth"@, "1"@],
{
    lemma_fetch_words();
    let f = fetch_args_of(r, shallow);
    let u = update_args_of(shallow);
    assert(f[2] == "--force"@);
    assert(u.take(2) =~= seq!["submodule"@, "update"@]);
    assert(u[2] == "--init"@ && u[3] == "--recursive"@ && u[4] == "--force"@);
    if shallow {
        assert(f.drop_last()[3] == "--depth"@);
        assert(f[3] == "--depth"@ && f[4] == "1"@);
        assert(u[5] == "--depth"@);
        assert(u.skip(5) =~= seq!["--depth"@, "1"@]);
    } else {
        assert("--depth"@[2] == 'd' && "--quiet"@[2] == 'q' && "--force"@[2] == 'f');
        assert(!f.drop_last().contains("--depth"@));
        assert(!u.contains("--depth"@));
    }
}

/// Everything is fetched with every branch and every tag; history that is missing is asked for
/// exactly where some is missing.
pub proof fn a_full_fetch_brings_every_branch_and_tag(is_shallow: bool)
    ensures
        full_fetch_args_of(is_shallow)[0] == "fetch"@,
        full_fetch_args_of(is_shallow).contains("--tags"@),
        full_fetch_args_of(is_shallow).contains("origin"@),
        full_fetch_args_of(is_shallow).last() == "+refs/heads/*:refs/remotes/origin/*"@,
        full_fetch_args_of(is_shallow).contains("--unshallow"@) <==> is_shallow,
{
    lemma_fetch_words();
    let f = full_fetch_args_of(is_shallow);
    assert(f[2] == "--tags"@);
    if is_shallow {
        assert(f[3] == "--unshallow"@ && f[4] == "origin"@);
    } else {
        assert(f[3] == "origin"@);
    }
}

/// A commit decides, then a tag, then a branch; what stands behind them does not matter.
pub proof fn a_commit_decides_before_a_tag_before_a_branch(
    x: Seq<char>,
    tag: Option<Seq<char>>,
    branch: Option<Seq<char>>,
)
    ensures
        ref_of(Some(x), tag, branch) == RefView::Commit(x),
        ref_of(None, Some(x), branch) == RefView::Tag(x),
        ref_of(None, None, Some(x)) == RefView::Branch(x),
        ref_of(None, None, None) == RefView::DefaultHead,
        ref_text(RefView::Commit(x)) == "commit "@ + x,
        ref_text(RefView::Tag(x)) == "tag "@ + x,
        ref_text(RefView::Branch(x)) == "branch "@ + x,
        ref_text(RefView::DefaultHead) == "default branch"@,
{
}

/// A commit is given by at least seven digits, hexadecimal ones in either case.
pub proof fn a_commit_is_seven_hex_digits_or_more(c: Seq<char>)
    ensures
        is_commit_id(c) <==> c.len() >= 7 && forall|i: int|
            0 <= i < c.len() ==> ('0' <= #[trigger] c[i] <= '9' || 'a' <= c[i] <= 'f' || 'A' <= c[i]
                <= 'F'),
{
    if all_hex_digits(c) {
        assert(is_ascii_chars(c));
        is_ascii_chars_encode_utf8(c);
    } else if forall|i: int|
        0 <= i < c.len() ==> ('0' <= #[trigger] c[i] <= '9' || 'a' <= c[i] <= 'f' || 'A' <= c[i]
            <= 'F') {
        assert(all_hex_digits(c));
    }
}

} // verus!
