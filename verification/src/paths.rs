//! Filesystem paths as text, and the operations of `std::path` that the
//! library uses on them. Paths are held as `String`s; each operation goes
//! through `std::path::Path`/`PathBuf`, and its result is named by a
//! specification function of the paths' characters.
use vstd::prelude::*;

use std::path::{Path, PathBuf};

verus! {

/// What `Path::is_absolute` says of a path.
pub uninterp spec fn is_absolute_path(p: Seq<char>) -> bool;

/// What `PathBuf::push` makes of a base and a further path.
pub uninterp spec fn pushed(base: Seq<char>, rest: Seq<char>) -> Seq<char>;

/// What `Path::parent` gives for a path.
pub uninterp spec fn parent_of(p: Seq<char>) -> Option<Seq<char>>;

/// What `Path::file_name` gives for a path.
pub uninterp spec fn file_name_of(p: Seq<char>) -> Option<Seq<char>>;

/// What `Path::starts_with` says of a path and a base (whole components).
pub uninterp spec fn starts_with_path(p: Seq<char>, base: Seq<char>) -> bool;

/// What `Path::components` gives for a path, each component as text.
pub uninterp spec fn components_of(p: Seq<char>) -> Seq<Seq<char>>;

/// What `Path::extension` gives for a path.
pub uninterp spec fn extension_of(p: Seq<char>) -> Option<Seq<char>>;

/// What `Path::strip_prefix` gives for a path and a base.
pub uninterp spec fn stripped_of(p: Seq<char>, base: Seq<char>) -> Option<Seq<char>>;

/// What `<=` on `Path` (which compares paths component by component) says
/// of two paths.
pub uninterp spec fn path_order_le(a: Seq<char>, b: Seq<char>) -> bool;

/// `Path::is_absolute`.
#[verifier::external_body]
pub(crate) fn path_is_absolute(p: &str) -> (b: bool)
    ensures
        b == is_absolute_path(p@),
{
    Path::new(p).is_absolute()
}

/// `PathBuf::push`: `base` extended by `rest` (which replaces `base` when it
/// is absolute). This is also what `Path::join` gives.
#[verifier::external_body]
pub(crate) fn path_push(base: &str, rest: &str) -> (r: String)
    ensures
        r@ == pushed(base@, rest@),
{
    let mut b = PathBuf::from(base);
    b.push(rest);
    b.to_string_lossy().into_owned()
}

/// `Path::parent`.
#[verifier::external_body]
pub(crate) fn path_parent(p: &str) -> (r: Option<String>)
    ensures
        r is Some <==> parent_of(p@) is Some,
        r matches Some(q) ==> parent_of(p@) == Some(q@),
{
    Path::new(p).parent().map(|q| q.to_string_lossy().into_owned())
}

/// `Path::file_name`.
#[verifier::external_body]
pub(crate) fn path_file_name(p: &str) -> (r: Option<String>)
    ensures
        r is Some <==> file_name_of(p@) is Some,
        r matches Some(q) ==> file_name_of(p@) == Some(q@),
{
    Path::new(p).file_name().map(|q| q.to_string_lossy().into_owned())
}

/// `Path::starts_with`: whether `base`'s components are a prefix of `p`'s.
#[verifier::external_body]
pub(crate) fn path_starts_with(p: &str, base: &str) -> (b: bool)
    ensures
        b == starts_with_path(p@, base@),
{
    Path::new(p).starts_with(base)
}

/// `Path::components`, each component as text.
#[verifier::external_body]
pub(crate) fn path_components(p: &str) -> (r: Vec<String>)
    ensures
        crate::text::views(r@) == components_of(p@),
{
    Path::new(p).components().map(|c| c.as_os_str().to_string_lossy().into_owned()).collect()
}

/// `Path::strip_prefix`: what is left of `p` after the components of
/// `base`; none exactly when `base` is not a prefix of `p` (as
/// `Path::starts_with` says).
#[verifier::external_body]
pub(crate) fn path_strip_prefix(p: &str, base: &str) -> (r: Option<String>)
    ensures
        r is Some <==> stripped_of(p@, base@) is Some,
        r matches Some(q) ==> stripped_of(p@, base@) == Some(q@),
        r is Some <==> starts_with_path(p@, base@),
{
    Path::new(p).strip_prefix(base).ok().map(|q| q.to_string_lossy().into_owned())
}

/// `<=` on `Path`. `Path`'s order is total, so when `a <= b` fails,
/// `b <= a` holds.
#[verifier::external_body]
pub(crate) fn path_le(a: &str, b: &str) -> (r: bool)
    ensures
        r == path_order_le(a@, b@),
        !r ==> path_order_le(b@, a@),
{
    Path::new(a) <= Path::new(b)
}

/// `Path::extension`.
#[verifier::external_body]
pub(crate) fn path_extension(p: &str) -> (r: Option<String>)
    ensures
        r is Some <==> extension_of(p@) is Some,
        r matches Some(q) ==> extension_of(p@) == Some(q@),
{
    Path::new(p).extension().map(|q| q.to_string_lossy().into_owned())
}

} // verus!
