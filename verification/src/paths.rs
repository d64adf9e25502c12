//! File paths as text, read and joined by the platform's own rules
//! (std's `Path`). What these give is only named here: which characters
//! separate, root and prefix a path is the platform's, and is not restated.
//! Each name is a function of its arguments within one build.

use vstd::prelude::*;

verus! {

/// A piece of a path, as std's `Path::components` yields it.
#[derive(Debug, Clone, PartialEq, Eq)]
pub enum PathPart {
    Prefix,
    RootDir,
    CurDir,
    ParentDir,
    Normal(String),
}

pub ghost enum PathPartV {
    Prefix,
    RootDir,
    CurDir,
    ParentDir,
    Normal(Seq<char>),
}

impl View for PathPart {
    type V = PathPartV;

    open spec fn view(&self) -> PathPartV {
        match self {
            PathPart::Prefix => PathPartV::Prefix,
            PathPart::RootDir => PathPartV::RootDir,
            PathPart::CurDir => PathPartV::CurDir,
            PathPart::ParentDir => PathPartV::ParentDir,
            PathPart::Normal(n) => PathPartV::Normal(n@),
        }
    }
}

pub open spec fn parts_view(v: Seq<PathPart>) -> Seq<PathPartV> {
    v.map_values(|p: PathPart| p@)
}

/// Whether the platform reads a path as absolute.
pub uninterp spec fn is_absolute_path(p: Seq<char>) -> bool;

/// The path the platform reads as a path's parent, if it has one.
pub uninterp spec fn parent_path(p: Seq<char>) -> Option<Seq<char>>;

/// The path the platform makes of `p` read against `base`.
pub uninterp spec fn joined_path(base: Seq<char>, p: Seq<char>) -> Seq<char>;

/// The pieces the platform reads a path as.
pub uninterp spec fn path_parts(p: Seq<char>) -> Seq<PathPartV>;

/// std's `Path::is_absolute`; its result is named.
#[verifier::external_body]
pub(crate) fn path_is_absolute(p: &str) -> (r: bool)
    ensures
        r == is_absolute_path(p@),
{
    std::path::Path::new(p).is_absolute()
}

/// std's `Path::parent`, as text; its result is named.
#[verifier::external_body]
pub(crate) fn path_parent(p: &str) -> (r: Option<String>)
    ensures
        match r {
            Some(q) => parent_path(p@) == Some(q@),
            None => parent_path(p@) is None,
        },
{
    std::path::Path::new(p).parent().map(|q| q.to_string_lossy().into_owned())
}

/// std's `Path::join`, as text; its result is named.
#[verifier::external_body]
pub(crate) fn path_join(base: &str, p: &str) -> (r: String)
    ensures
        r@ == joined_path(base@, p@),
{
    std::path::Path::new(base).join(p).to_string_lossy().into_owned()
}

/// std's `Path::components`, each as a `PathPart`; its result is named.
#[verifier::external_body]
pub(crate) fn path_components(p: &str) -> (r: Vec<PathPart>)
    ensures
        parts_view(r@) == path_parts(p@),
{
    std::path::Path::new(p).components().map(|c| match c {
        std::path::Component::Prefix(_) => PathPart::Prefix,
        std::path::Component::RootDir => PathPart::RootDir,
        std::path::Component::CurDir => PathPart::CurDir,
        std::path::Component::ParentDir => PathPart::ParentDir,
        std::path::Component::Normal(n) => PathPart::Normal(n.to_string_lossy().into_owned()),
    }).collect()
}

} // verus!
