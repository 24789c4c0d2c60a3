//! What can go wrong while a project is read and resolved.
use crate::text::cat2;
use vstd::prelude::*;
use vstd::string::*;

verus! {

broadcast use vstd::string::group_string_axioms;

/// An error of the core, with the text that explains it.
#[derive(Debug)]
pub enum CoreError {
    Io(String),
    TomlDe(String),
    TomlSer(String),
    TargetParse(String),
    Manifest(String),
    CycleDetected(String),
    DependencyNotFound(String),
}

/// An error with its explanation as a sequence of characters.
pub enum CoreErrorView {
    Io(Seq<char>),
    TomlDe(Seq<char>),
    TomlSer(Seq<char>),
    TargetParse(Seq<char>),
    Manifest(Seq<char>),
    CycleDetected(Seq<char>),
    DependencyNotFound(Seq<char>),
}

pub type CoreResult<T> = Result<T, CoreError>;

impl View for CoreError {
    type V = CoreErrorView;

    open spec fn view(&self) -> CoreErrorView {
        match self {
            CoreError::Io(m) => CoreErrorView::Io(m@),
            CoreError::TomlDe(m) => CoreErrorView::TomlDe(m@),
            CoreError::TomlSer(m) => CoreErrorView::TomlSer(m@),
            CoreError::TargetParse(m) => CoreErrorView::TargetParse(m@),
            CoreError::Manifest(m) => CoreErrorView::Manifest(m@),
            CoreError::CycleDetected(m) => CoreErrorView::CycleDetected(m@),
            CoreError::DependencyNotFound(m) => CoreErrorView::DependencyNotFound(m@),
        }
    }
}

/// The line that reports an error.
pub open spec fn error_message(e: CoreErrorView) -> Seq<char> {
    match e {
        CoreErrorView::Io(m) => "I/O error: "@ + m,
        CoreErrorView::TomlDe(m) => "Serialization/Deserialization error: "@ + m,
        CoreErrorView::TomlSer(m) => "Serialization toml error: "@ + m,
        CoreErrorView::TargetParse(m) => "Target parsing error: "@ + m,
        CoreErrorView::Manifest(m) => "Manifest error: "@ + m,
        CoreErrorView::CycleDetected(m) => "Dependency cycle detected: "@ + m,
        CoreErrorView::DependencyNotFound(m) => "Dependency not found: "@ + m,
    }
}

impl CoreError {
    /// The line that reports the error.
    pub fn message(&self) -> (r: String)
        ensures
            r@ == error_message(self@),
    {
        match self {
            CoreError::Io(m) => cat2("I/O error: ", m.as_str()),
            CoreError::TomlDe(m) => cat2("Serialization/Deserialization error: ", m.as_str()),
            CoreError::TomlSer(m) => cat2("Serialization toml error: ", m.as_str()),
            CoreError::TargetParse(m) => cat2("Target parsing error: ", m.as_str()),
            CoreError::Manifest(m) => cat2("Manifest error: ", m.as_str()),
            CoreError::CycleDetected(m) => cat2("Dependency cycle detected: ", m.as_str()),
            CoreError::DependencyNotFound(m) => cat2("Dependency not found: ", m.as_str()),
        }
    }
}

/// Every error says of what kind it is, and then what was wrong.
pub proof fn an_error_says_its_kind(m: Seq<char>)
    ensures
        error_message(CoreErrorView::Io(m)) == "I/O error: "@ + m,
        error_message(CoreErrorView::TomlDe(m)) == "Serialization/Deserialization error: "@ + m,
        error_message(CoreErrorView::TomlSer(m)) == "Serialization toml error: "@ + m,
        error_message(CoreErrorView::TargetParse(m)) == "Target parsing error: "@ + m,
        error_message(CoreErrorView::Manifest(m)) == "Manifest error: "@ + m,
        error_message(CoreErrorView::CycleDetected(m)) == "Dependency cycle detected: "@ + m,
        error_message(CoreErrorView::DependencyNotFound(m)) == "Dependency not found: "@ + m,
{
}

} // verus!
