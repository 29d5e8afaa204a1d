//! File-system paths held as text, with the `std::path` and `pathdiff`
//! operations the scanners rely on.
use vstd::prelude::*;

verus! {

/// Whether `std::path::Path` considers `a` and `b` the same path (it compares
/// their components). What a component is depends on the platform: Windows
/// also splits at `\` and reads drive and UNC prefixes, Unix does not.
pub uninterp spec fn same_path(a: Seq<char>, b: Seq<char>) -> bool;

/// The text of `Path::new(base).join(rel)`. The result depends on the
/// platform's separators and prefixes (Unix or Windows).
pub uninterp spec fn joined_path(base: Seq<char>, rel: Seq<char>) -> Seq<char>;

/// The text of `pathdiff::diff_paths(path, base)`: the path leading from `base`
/// to `path`, where one exists. It walks `Path` components, so it depends on
/// the platform's separators and prefixes (Unix or Windows).
pub uninterp spec fn relative_path(path: Seq<char>, base: Seq<char>) -> Option<Seq<char>>;

/// Compares two paths with `Path`'s `==`. The contract names the answer
/// `same_path(a@, b@)` and adds only that equal texts are the same path; the
/// component rules, which differ between Unix and Windows, are left unstated.
#[verifier::external_body]
pub(crate) fn path_eq(a: &str, b: &str) -> (r: bool)
    ensures
        r == same_path(a@, b@),
        a@ == b@ ==> r,
{
    std::path::Path::new(a) == std::path::Path::new(b)
}

/// Whether joining `rel` onto `base` gives `rel` itself on Unix and on
/// Windows alike: `rel` starts with `/` (absolute on Unix, rooted without a
/// prefix on Windows), and `base` carries no Windows prefix (no `:`, and no
/// leading `/` or `\`), so that nothing of `base` is kept.
pub open spec fn replaces_base(base: Seq<char>, rel: Seq<char>) -> bool {
    &&& rel.len() > 0
    &&& rel[0] == '/'
    &&& !base.contains(':')
    &&& !(base.len() > 0 && (base[0] == '/' || base[0] == '\\'))
}

/// Calls `Path::join` and returns the joined path as text. The contract names
/// the result `joined_path(base@, rel@)` and states what `join` documents of
/// a path that replaces the base (see `replaces_base`); how it places
/// separators otherwise, which differs between Unix and Windows, is left
/// unstated.
#[verifier::external_body]
pub(crate) fn join_path(base: &str, rel: &str) -> (r: String)
    ensures
        r@ == joined_path(base@, rel@),
        replaces_base(base@, rel@) ==> r@ == rel@,
{
    std::path::Path::new(base).join(rel).to_string_lossy().into_owned()
}

/// Calls `pathdiff::diff_paths(path, base)` and returns the relative path as
/// text. The contract names the result `relative_path(path@, base@)`; the
/// component walk that `pathdiff` performs is left unstated.
#[verifier::external_body]
pub(crate) fn diff_paths(path: &str, base: &str) -> (r: Option<String>)
    ensures
        match r {
            Some(p) => relative_path(path@, base@) == Some(p@),
            None => relative_path(path@, base@) is None,
        },
{
    pathdiff::diff_paths(path, base).map(|p| p.to_string_lossy().into_owned())
}

/// The text of `Path::new(p).extension()`: what follows the last `.` of the
/// file name, when there is one. Which part is the file name depends on the
/// platform's separators (Unix or Windows).
pub uninterp spec fn extension_of(p: Seq<char>) -> Option<Seq<char>>;

/// Calls `Path::extension` and returns the extension as text. The contract
/// names the result `extension_of(p@)`; the rules for dot files and names
/// without a dot are left unstated.
#[verifier::external_body]
pub(crate) fn path_extension(p: &str) -> (r: Option<String>)
    ensures
        match r {
            Some(e) => extension_of(p@) == Some(e@),
            None => extension_of(p@) is None,
        },
{
    std::path::Path::new(p).extension().map(|e| e.to_string_lossy().into_owned())
}

} // verus!
