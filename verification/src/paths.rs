//! File paths as texts. What `std::path` and `pathdiff` compute of a path
//! is taken from them, for the platform that the library is built for, and
//! given a name here.

use std::path::Path;
use vstd::prelude::*;

verus! {

/// The last component of `path`, where it has one that names a file or a
/// directory.
pub uninterp spec fn file_name_of(path: Seq<char>) -> Option<Seq<char>>;

/// `path` without its last component, where it has one to lose.
pub uninterp spec fn parent_of(path: Seq<char>) -> Option<Seq<char>>;

/// `path` followed by `more`, or `more` alone where that is absolute.
pub uninterp spec fn joined(path: Seq<char>, more: Seq<char>) -> Seq<char>;

/// `path`, its parent, the parent of that, and so on to the root.
pub uninterp spec fn ancestors_of(path: Seq<char>) -> Seq<Seq<char>>;

/// Whether the first components of `path` are those of `base`.
pub uninterp spec fn path_starts_with(path: Seq<char>, base: Seq<char>) -> bool;

/// Whether `path` says where it lies without regard to a current
/// directory.
pub uninterp spec fn is_absolute_path(path: Seq<char>) -> bool;

/// The path that leads from `base` to `path`, where one can be told.
pub uninterp spec fn relative_to(path: Seq<char>, base: Seq<char>) -> Option<Seq<char>>;

/// Whether two paths have the same components.
pub uninterp spec fn same_path(a: Seq<char>, b: Seq<char>) -> bool;

/// Tells whether two paths have the same components.
///
/// Stands for the equality of `Path`; the result is taken as a function of
/// the two texts.
#[verifier::external_body]
pub(crate) fn paths_equal(a: &str, b: &str) -> (equal: bool)
    ensures
        equal == same_path(a@, b@),
{
    Path::new(a) == Path::new(b)
}

/// The last component of `path`, if it has one.
///
/// Stands for `Path::file_name`; the result is taken as a function of the
/// text of the path.
#[verifier::external_body]
pub(crate) fn file_name(path: &str) -> (name: Option<String>)
    ensures
        match name {
            Some(text) => file_name_of(path@) == Some(text@),
            None => file_name_of(path@) is None,
        },
{
    Path::new(path).file_name().map(|name| name.to_string_lossy().into_owned())
}

/// `path` without its last component, if it has one to lose.
///
/// Stands for `Path::parent`; the result is taken as a function of the text
/// of the path.
#[verifier::external_body]
pub(crate) fn parent(path: &str) -> (dir: Option<String>)
    ensures
        match dir {
            Some(text) => parent_of(path@) == Some(text@),
            None => parent_of(path@) is None,
        },
{
    Path::new(path).parent().map(|dir| dir.to_string_lossy().into_owned())
}

/// `path` followed by `more`.
///
/// Stands for `Path::join`; the result is taken as a function of the two
/// texts.
#[verifier::external_body]
pub(crate) fn join(path: &str, more: &str) -> (whole: String)
    ensures
        whole@ == joined(path@, more@),
{
    Path::new(path).join(more).to_string_lossy().into_owned()
}

/// `path` and the directories above it, the nearest first.
///
/// Stands for `Path::ancestors`; the list is taken as a function of the
/// text of the path.
#[verifier::external_body]
pub(crate) fn ancestors(path: &str) -> (dirs: Vec<String>)
    ensures
        dirs@.len() == ancestors_of(path@).len(),
        forall|i: int| 0 <= i < dirs@.len() ==> (#[trigger] dirs@[i])@ == ancestors_of(path@)[i],
{
    Path::new(path).ancestors().map(|dir| dir.to_string_lossy().into_owned()).collect()
}

/// Tells whether `path` starts with the components of `base`.
///
/// Stands for `Path::starts_with`; the result is taken as a function of the
/// two texts.
#[verifier::external_body]
pub(crate) fn starts_with(path: &str, base: &str) -> (starts: bool)
    ensures
        starts == path_starts_with(path@, base@),
{
    Path::new(path).starts_with(base)
}

/// Tells whether `path` is absolute.
///
/// Stands for `Path::is_absolute`; the result is taken as a function of the
/// text of the path.
#[verifier::external_body]
pub(crate) fn is_absolute(path: &str) -> (absolute: bool)
    ensures
        absolute == is_absolute_path(path@),
{
    Path::new(path).is_absolute()
}

/// The path that leads from `base` to `path`, if one can be told.
///
/// Stands for `pathdiff::diff_paths`; the result is taken as a function of
/// the two texts.
#[verifier::external_body]
pub(crate) fn diff_paths(path: &str, base: &str) -> (relative: Option<String>)
    ensures
        match relative {
            Some(text) => relative_to(path@, base@) == Some(text@),
            None => relative_to(path@, base@) is None,
        },
{
    pathdiff::diff_paths(path, base).map(|relative| relative.to_string_lossy().into_owned())
}

/// The path of a file: a path that has a last component, which is kept
/// beside it.
#[derive(Debug)]
pub struct FilePath {
    path: String,
    basename: String,
}

impl View for FilePath {
    type V = Seq<char>;

    /// The path.
    closed spec fn view(&self) -> Seq<char> {
        self.path@
    }
}

impl FilePath {
    #[verifier::type_invariant]
    spec fn names_a_file(self) -> bool {
        file_name_of(self.path@) == Some(self.basename@)
    }

    /// The last component of the path.
    pub closed spec fn name(&self) -> Seq<char> {
        self.basename@
    }

    /// The path `path`, if it has a last component.
    pub fn new(path: String) -> (file: Option<FilePath>)
        ensures
            match file {
                Some(found) => found@ == path@ && file_name_of(path@) == Some(found.name()),
                None => file_name_of(path@) is None,
            },
    {
        match file_name(path.as_str()) {
            Some(basename) => Some(FilePath { path, basename }),
            None => None,
        }
    }

    /// The path.
    pub fn path(&self) -> (path: &String)
        ensures
            path@ == self@,
    {
        &self.path
    }

    /// The last component of the path.
    pub fn basename(&self) -> (basename: &String)
        ensures
            basename@ == self.name(),
            file_name_of(self@) == Some(self.name()),
    {
        proof {
            use_type_invariant(self);
        }
        &self.basename
    }
}

} // verus!
