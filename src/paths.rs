//! File-name handling, through `std::path`.
use vstd::prelude::*;

verus! {

/// What `Path::with_extension` makes of a path and an extension.
pub uninterp spec fn with_extension_of(p: Seq<char>, ext: Seq<char>) -> Seq<char>;

/// What `Path::file_name` gives for a path, the empty text where it gives none.
pub uninterp spec fn file_name_of(p: Seq<char>) -> Seq<char>;

/// What `Path::extension` gives for a path.
pub uninterp spec fn extension_of(p: Seq<char>) -> Option<Seq<char>>;

/// No path separator in `s`: an extension that holds one makes
/// `Path::with_extension` panic.
pub open spec fn no_separator(s: Seq<char>) -> bool {
    forall|i: int| 0 <= i < s.len() ==> s[i] != '/' && s[i] != '\\'
}

/// Relies on `std::path::Path::with_extension`: the path with its extension
/// replaced by `ext` (removed where `ext` is empty). A path made of text stays
/// text. The call panics on an extension that holds a path separator.
#[verifier::external_body]
pub fn path_with_extension(p: &str, ext: &str) -> (r: String)
    requires
        no_separator(ext@),
    ensures
        r@ == with_extension_of(p@, ext@),
{
    std::path::Path::new(p).with_extension(ext).to_str().unwrap_or_default().to_owned()
}

/// Relies on `std::path::Path::file_name`: the last component of the path,
/// taken as empty where there is none.
#[verifier::external_body]
pub fn path_file_name(p: &str) -> (r: String)
    ensures
        r@ == file_name_of(p@),
{
    std::path::Path::new(p).file_name().unwrap_or_default().to_str().unwrap_or_default().to_owned()
}

/// Relies on `std::path::Path::extension`: the text after the last dot of the
/// file name, if any.
#[verifier::external_body]
pub fn path_extension(p: &str) -> (r: Option<String>)
    ensures
        match r {
            Some(e) => extension_of(p@) == Some(e@),
            None => extension_of(p@) == None::<Seq<char>>,
        },
{
    match std::path::Path::new(p).extension() {
        Some(e) => Some(e.to_str().unwrap_or_default().to_owned()),
        None => None,
    }
}

/// The extension that marks an index file.
pub open spec fn index_extension() -> Seq<char> {
    "dat"@
}

/// An index file is one whose extension is `dat`.
pub open spec fn is_index_path_spec(p: Seq<char>) -> bool {
    extension_of(p) == Some(index_extension())
}

/// Whether the path names an index file.
pub fn is_index_path(p: &str) -> (r: bool)
    ensures
        r == is_index_path_spec(p@),
{
    match path_extension(p) {
        Some(e) => e == "dat".to_owned(),
        None => false,
    }
}

/// The source text that an index describes: the index path without its extension.
pub open spec fn text_path_of(p: Seq<char>) -> Seq<char> {
    with_extension_of(p, ""@)
}

/// The logical name of an index: the file name of its source text.
pub open spec fn logical_name_of(p: Seq<char>) -> Seq<char> {
    file_name_of(text_path_of(p))
}

} // verus!
