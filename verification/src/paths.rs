//! File names in paths, as `std::path::Path` reads them.
use vstd::prelude::*;

use crate::provider::opt_text;
use crate::text::str_eq;

verus! {

/// What `Path::file_stem` gives for a path: the file name without its extension.
pub uninterp spec fn path_file_stem(path: Seq<char>) -> Option<Seq<char>>;

/// What `Path::extension` gives for a path: the part of the file name after its
/// last `.`.
pub uninterp spec fn path_extension(path: Seq<char>) -> Option<Seq<char>>;

/// `Path::file_stem` of a path given as text. A stem taken from UTF-8 text is
/// UTF-8 itself, so the conversion back to text loses nothing.
#[verifier::external_body]
pub(crate) fn file_stem(path: &str) -> (r: Option<String>)
    ensures
        opt_text(r) == path_file_stem(path@),
{
    std::path::Path::new(path).file_stem().map(|s| s.to_string_lossy().to_string())
}

/// `Path::extension` of a path given as text.
#[verifier::external_body]
pub(crate) fn extension(path: &str) -> (r: Option<String>)
    ensures
        opt_text(r) == path_extension(path@),
{
    std::path::Path::new(path).extension().map(|s| s.to_string_lossy().to_string())
}

/// Whether the path names a `.conf` file.
pub fn has_conf_extension(path: &str) -> (b: bool)
    ensures
        b == (path_extension(path@) == Some("conf"@)),
{
    match extension(path) {
        Some(e) => str_eq(e.as_str(), "conf"),
        None => false,
    }
}

/// The file stem of a path, or the empty text when it has none.
pub fn stem_or_empty(path: &str) -> (s: String)
    ensures
        s@ == match path_file_stem(path@) {
            Some(t) => t,
            None => Seq::<char>::empty(),
        },
{
    match file_stem(path) {
        Some(s) => s,
        None => String::new(),
    }
}

} // verus!
