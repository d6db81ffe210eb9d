//! Paths as text, taken apart and put together by `std::path`.

use vstd::prelude::*;

verus! {

/// The extension that `std::path::Path::extension` finds in `path`.
pub uninterp spec fn path_extension(path: Seq<char>) -> Option<Seq<char>>;

/// `base` with `rest` adjoined by `std::path::Path::join`.
pub uninterp spec fn path_join(base: Seq<char>, rest: Seq<char>) -> Seq<char>;

/// The extension of the file name of `path`, by
/// `std::path::Path::extension`: `None` where the path has no file name or
/// the file name no extension. The result depends on the text of `path`
/// alone.
#[verifier::external_body]
pub(crate) fn extension(path: &str) -> (ext: Option<&str>)
    ensures
        match ext {
            Some(ext) => path_extension(path@) == Some(ext@),
            None => path_extension(path@) is None,
        },
{
    std::path::Path::new(path).extension().and_then(|ext| ext.to_str())
}

/// The path `base` with `rest` adjoined, by `std::path::Path::join`. The
/// result depends on the two texts alone.
#[verifier::external_body]
pub(crate) fn join(base: &str, rest: &str) -> (joined: String)
    ensures
        joined@ == path_join(base@, rest@),
{
    std::path::Path::new(base).join(rest).to_string_lossy().into_owned()
}

} // verus!
