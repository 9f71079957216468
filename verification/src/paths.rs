//! Paths held as text, with the calls into `std::path` that compare, join,
//! re-extend and name them.
use vstd::prelude::*;

verus! {

/// Names what `==` on `std::path::Path` answers for the two paths written as these texts.
pub uninterp spec fn paths_equal(a: Seq<char>, b: Seq<char>) -> bool;

/// Names the text of `Path::join(base, name)`.
pub uninterp spec fn path_joined(base: Seq<char>, name: Seq<char>) -> Seq<char>;

/// Names the text of `Path::with_extension(path, ext)`.
pub uninterp spec fn path_with_extension(path: Seq<char>, ext: Seq<char>) -> Seq<char>;

/// Names the text of `Path::file_name(path)` (`None` when the path ends in `..` or is a root).
pub uninterp spec fn path_file_name(path: Seq<char>) -> Option<Seq<char>>;

/// Compares two paths as `std::path::Path` does.
/// Trusted: the answer is `paths_equal` of the two texts, and equal texts are equal
/// paths (`Path` is `Eq`).
#[verifier::external_body]
pub(crate) fn path_eq(a: &str, b: &str) -> (r: bool)
    ensures
        r == paths_equal(a@, b@),
        a@ == b@ ==> r,
{
    std::path::Path::new(a) == std::path::Path::new(b)
}

/// `Path::new(base).join(name)`, as text.
/// Trusted: the result is `path_joined` of the two texts.
#[verifier::external_body]
pub(crate) fn join_path(base: &str, name: &str) -> (r: String)
    ensures
        r@ == path_joined(base@, name@),
{
    std::path::Path::new(base).join(name).to_string_lossy().into_owned()
}

/// `Path::new(path).with_extension(ext)`, as text.
/// Trusted: the result is `path_with_extension` of the two texts. `std` panics when the
/// extension holds a path separator, so such an extension is not admitted.
#[verifier::external_body]
pub(crate) fn with_extension(path: &str, ext: &str) -> (r: String)
    requires
        !ext@.contains('/'),
        !ext@.contains('\\'),
    ensures
        r@ == path_with_extension(path@, ext@),
{
    std::path::Path::new(path).with_extension(ext).to_string_lossy().into_owned()
}

/// `Path::new(path).file_name()`, as text.
/// Trusted: the result is `path_file_name` of the text.
#[verifier::external_body]
pub(crate) fn file_name(path: &str) -> (r: Option<String>)
    ensures
        match r {
            Some(f) => path_file_name(path@) == Some(f@),
            None => path_file_name(path@) is None,
        },
{
    match std::path::Path::new(path).file_name() {
        Some(f) => Some(f.to_string_lossy().into_owned()),
        None => None,
    }
}

/// A path's file name when it has one, else the whole path.
pub open spec fn file_name_or_path(path: Seq<char>) -> Seq<char> {
    match path_file_name(path) {
        Some(f) => f,
        None => path,
    }
}

/// Text of a path that is shown to the user by its file name.
pub trait FileNameOrPathTrait {
    /// The file name of the path, or the whole path when it has none.
    fn file_name_safe(&self) -> String;
}

impl FileNameOrPathTrait for String {
    fn file_name_safe(&self) -> (r: String)
        ensures
            r@ == file_name_or_path(self@),
    {
        match file_name(self.as_str()) {
            Some(f) => f,
            None => self.clone(),
        }
    }
}

} // verus!
