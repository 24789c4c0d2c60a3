//! Compiler families.
use crate::path::{file_stem, file_stem_of};
use crate::text::{
    contains, has_part, has_prefix, is_space, lemma_lower_kept, lower, same, starts_with,
    to_lowercase, trim, trimmed, trimming_keeps_what_is_trimmed,
};
use std::convert::Infallible;
use std::str::FromStr;
use vstd::prelude::*;
use vstd::string::*;

verus! {

broadcast use vstd::string::group_string_axioms;

#[derive(Debug, PartialEq, Eq, Hash)]
pub enum CompilerType {
    Clang,
    Msvc,
    Gcc,
    Custom(String),
}

/// A compiler family with its name as a sequence of characters.
pub enum CompilerView {
    Clang,
    Msvc,
    Gcc,
    Custom(Seq<char>),
}

impl View for CompilerType {
    type V = CompilerView;

    open spec fn view(&self) -> CompilerView {
        match self {
            CompilerType::Clang => CompilerView::Clang,
            CompilerType::Msvc => CompilerView::Msvc,
            CompilerType::Gcc => CompilerView::Gcc,
            CompilerType::Custom(s) => CompilerView::Custom(s@),
        }
    }
}

impl Clone for CompilerType {
    fn clone(&self) -> (r: Self)
        ensures
            r == *self,
    {
        match self {
            CompilerType::Clang => CompilerType::Clang,
            CompilerType::Msvc => CompilerType::Msvc,
            CompilerType::Gcc => CompilerType::Gcc,
            CompilerType::Custom(s) => CompilerType::Custom(s.clone()),
        }
    }
}

/// The name of a compiler family.
pub open spec fn compiler_text(c: CompilerView) -> Seq<char> {
    match c {
        CompilerView::Clang => "clang"@,
        CompilerView::Msvc => "msvc"@,
        CompilerView::Gcc => "gcc"@,
        CompilerView::Custom(s) => s,
    }
}

/// The family that a name stands for, whatever its case and the space around it.
pub open spec fn compiler_named(s: Seq<char>) -> CompilerView {
    let n = lower(trimmed(s));
    if n == "clang"@ || n == "appleclang"@ || n == "apple-clang"@ || n == "clang-cl"@ {
        CompilerView::Clang
    } else if n == "msvc"@ || n == "cl"@ {
        CompilerView::Msvc
    } else if n == "gcc"@ || n == "gnu"@ || n == "g++"@ || n == "mingw"@ {
        CompilerView::Gcc
    } else {
        CompilerView::Custom(n)
    }
}

/// The file stem of a compiler's path in small letters.
pub open spec fn compiler_stem(path: Seq<char>) -> Seq<char> {
    match file_stem_of(path) {
        Some(s) => lower(s),
        None => lower(""@),
    }
}

/// The family that the path of a compiler tells.
pub open spec fn compiler_at(path: Seq<char>) -> CompilerView {
    let stem = compiler_stem(path);
    if has_part(stem, "clang"@) {
        CompilerView::Clang
    } else if stem == "cl"@ || has_prefix(stem, "cl-"@) || has_part(stem, "msvc"@) {
        CompilerView::Msvc
    } else if has_part(stem, "gcc"@) || has_part(stem, "g++"@) || has_part(stem, "mingw"@) {
        CompilerView::Gcc
    } else if stem.len() > 0 {
        CompilerView::Custom(stem)
    } else {
        CompilerView::Custom(path)
    }
}

impl CompilerType {
    pub fn as_str(&self) -> (r: &str)
        ensures
            r@ == compiler_text(self@),
    {
        match self {
            CompilerType::Clang => "clang",
            CompilerType::Msvc => "msvc",
            CompilerType::Gcc => "gcc",
            CompilerType::Custom(s) => s.as_str(),
        }
    }

    /// The family of the compiler at `path`, by its file name.
    pub fn detect_from_path(path: &str) -> (r: Self)
        ensures
            r@ == compiler_at(path@),
    {
        let l = match file_stem(path) {
            Some(s) => to_lowercase(s.as_str()),
            None => to_lowercase(""),
        };
        let stem = l.as_str();
        if contains(stem, "clang") {
            CompilerType::Clang
        } else if same(stem, "cl") || starts_with(stem, "cl-") || contains(stem, "msvc") {
            CompilerType::Msvc
        } else if contains(stem, "gcc") || contains(stem, "g++") || contains(stem, "mingw") {
            CompilerType::Gcc
        } else if stem.unicode_len() > 0 {
            CompilerType::Custom(l)
        } else {
            CompilerType::Custom(path.to_owned())
        }
    }

    /// The family that a name stands for.
    pub fn from_str(s: &str) -> (r: Result<Self, Infallible>)
        ensures
            r matches Ok(c) && c@ == compiler_named(s@),
    {
        let t = trim(s);
        let l = to_lowercase(t.as_str());
        let n = l.as_str();
        if same(n, "clang") || same(n, "appleclang") || same(n, "apple-clang") || same(
            n,
            "clang-cl",
        ) {
            Ok(CompilerType::Clang)
        } else if same(n, "msvc") || same(n, "cl") {
            Ok(CompilerType::Msvc)
        } else if same(n, "gcc") || same(n, "gnu") || same(n, "g++") || same(n, "mingw") {
            Ok(CompilerType::Gcc)
        } else {
            Ok(CompilerType::Custom(l))
        }
    }
}

impl FromStr for CompilerType {
    type Err = Infallible;

    fn from_str(s: &str) -> Result<Self, Infallible> {
        CompilerType::from_str(s)
    }
}

// ---------------------------------------------------------------------------
// What is promised of compilers
// ---------------------------------------------------------------------------

/// The names of the compiler families, in either case and with white space around them. Any other
/// name stands for itself.
pub proof fn the_names_of_compilers(s: Seq<char>)
    ensures
        ({
            let n = lower(trimmed(s));
            &&& compiler_named(s) is Clang <==> n == "clang"@ || n == "appleclang"@ || n == "apple-clang"@ || n == "clang-cl"@
            &&& compiler_named(s) is Msvc <==> n == "msvc"@ || n == "cl"@
            &&& compiler_named(s) is Gcc <==> n == "gcc"@ || n == "gnu"@ || n == "g++"@ || n == "mingw"@
            &&& compiler_named(s) matches CompilerView::Custom(c) ==> c == n
        }),
{
    reveal_strlit("clang");
    assert("clang"@.len() == 5 && "clang"@[0] == 'c');
    reveal_strlit("appleclang");
    assert("appleclang"@.len() == 10 && "appleclang"@[0] == 'a');
    reveal_strlit("apple-clang");
    assert("apple-clang"@.len() == 11 && "apple-clang"@[0] == 'a');
    reveal_strlit("clang-cl");
    assert("clang-cl"@.len() == 8 && "clang-cl"@[0] == 'c');
    reveal_strlit("msvc");
    assert("msvc"@.len() == 4 && "msvc"@[0] == 'm');
    reveal_strlit("cl");
    assert("cl"@.len() == 2 && "cl"@[0] == 'c');
    reveal_strlit("gcc");
    assert("gcc"@.len() == 3 && "gcc"@[0] == 'g');
    reveal_strlit("gnu");
    assert("gnu"@.len() == 3 && "gnu"@[0] == 'g');
    reveal_strlit("g++");
    assert("g++"@.len() == 3 && "g++"@[0] == 'g');
    reveal_strlit("mingw");
    assert("mingw"@.len() == 5 && "mingw"@[0] == 'm');
}

/// What is written for a compiler family is a name of it.
pub proof fn compiler_text_parses_back(c: CompilerView)
    ensures
        !(c is Custom) ==> compiler_named(compiler_text(c)) == c,
        c matches CompilerView::Custom(s) ==> compiler_text(c) == s,
        compiler_text(CompilerView::Clang) == "clang"@,
        compiler_text(CompilerView::Msvc) == "msvc"@,
        compiler_text(CompilerView::Gcc) == "gcc"@,
{
    if !(c is Custom) {
        let t = compiler_text(c);
        reveal_strlit("clang");
        reveal_strlit("msvc");
        reveal_strlit("gcc");
        lemma_lower_kept(t);
        assert(!is_space(t[0]) && !is_space(t[t.len() - 1]));
        trimming_keeps_what_is_trimmed(t);
        the_names_of_compilers(t);
    }
}

/// A compiler is known by its file: one with `clang` in its name is Clang; of the others `cl`, what
/// begins with `cl-` and what has `msvc` in it is MSVC; of the rest what has `gcc`, `g++` or `mingw`
/// in it is GCC; and any other stands for itself.
pub proof fn a_compiler_is_known_by_its_file(path: Seq<char>, stem: Seq<char>)
    requires
        file_stem_of(path) == Some(stem),
    ensures
        ({
            let n = lower(stem);
            let clang = has_part(n, "clang"@);
            let msvc = n == "cl"@ || has_prefix(n, "cl-"@) || has_part(n, "msvc"@);
            let gcc = has_part(n, "gcc"@) || has_part(n, "g++"@) || has_part(n, "mingw"@);
            &&& clang ==> compiler_at(path) is Clang
            &&& !clang && msvc ==> compiler_at(path) is Msvc
            &&& !clang && !msvc && gcc ==> compiler_at(path) is Gcc
            &&& !clang && !msvc && !gcc && n.len() > 0 ==> compiler_at(path)
                == CompilerView::Custom(n)
        }),
{
}

} // verus!
