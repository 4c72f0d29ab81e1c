use vstd::prelude::*;
use std::path::{Path, PathBuf};

verus! {

/// The declared type of std's owned path, carried opaquely.
#[verifier::external_type_specification]
#[verifier::external_body]
pub struct ExPathBuf(PathBuf);

/// The declared type of std's path slice, carried opaquely.
#[verifier::external_type_specification]
#[verifier::external_body]
pub struct ExPath(Path);

/// What a path holds: its components in order (`Path::components`), each
/// as the bytes of its `OsStr` (`as_encoded_bytes`).
pub uninterp spec fn path_components(path: &Path) -> Seq<Seq<u8>>;

/// What an owned path holds: its components in order, as for `path_components`.
pub uninterp spec fn path_buf_components(path: PathBuf) -> Seq<Seq<u8>>;

/// `part` is one ordinary path component: not empty, without a separator or
/// a drive colon, and neither `.` nor `..`.
pub open spec fn is_plain_component(part: Seq<char>) -> bool {
    &&& part.len() > 0
    &&& !part.contains('/')
    &&& !part.contains('\\')
    &&& !part.contains(':')
    &&& part != "."@
    &&& part != ".."@
}

/// `Path::join`: `base` with the relative path `part` adjoined. The contract
/// claims only what adjoining one ordinary component does: it adds that
/// component after those of `base`. Other arguments get no clause.
#[verifier::external_body]
pub(crate) fn path_join(base: &Path, part: &str) -> (r: PathBuf)
    ensures
        is_plain_component(part@) ==> path_buf_components(r) == path_components(base).push(
            vstd::utf8::encode_utf8(part@),
        ),
{
    base.join(part)
}

/// `PathBuf::as_path`: the same path, borrowed.
#[verifier::external_body]
pub(crate) fn as_path(path: &PathBuf) -> (r: &Path)
    ensures
        path_components(r) == path_buf_components(*path),
{
    path.as_path()
}

/// What `Path::to_string_lossy` makes of `path`: its text, with invalid
/// UTF-8 replaced.
pub uninterp spec fn lossy_path_text(path: &Path) -> Seq<char>;

/// `Path::to_string_lossy`: the path's text, invalid UTF-8 replaced. The
/// contract names that text and states nothing of how it is made.
#[verifier::external_body]
pub(crate) fn path_text(path: &Path) -> (r: String)
    ensures
        r@ == lossy_path_text(path),
{
    path.to_string_lossy().into_owned()
}

} // verus!
