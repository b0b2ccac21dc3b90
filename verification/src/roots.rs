//! Source roots, and the file system paths that name them.
use std::path::PathBuf;

use vstd::prelude::*;

verus! {

/// A path of the file system.
#[verifier::external_type_specification]
#[verifier::external_body]
pub struct ExPathBuf(PathBuf);

/// The path that a text names.
pub uninterp spec fn path_from(text: Seq<char>) -> PathBuf;

/// `PathBuf::from` on a text gives the path that the text names.
#[verifier::external_body]
pub(crate) fn path(text: &str) -> (path: PathBuf)
    ensures
        path == path_from(text@),
{
    PathBuf::from(text)
}

/// The clone of a `PathBuf` is the same path.
pub assume_specification[ <PathBuf as Clone>::clone ](path: &PathBuf) -> (copy: PathBuf)
    ensures
        copy == *path,
;

/// The given roots; the current directory, if there are none.
pub fn roots_or_cwd(roots: Vec<PathBuf>) -> (chosen: Vec<PathBuf>)
    ensures
        chosen@ == if roots@.len() == 0 {
            seq![path_from("."@)]
        } else {
            roots@
        },
{
    let mut roots: Vec<PathBuf> = roots;
    if roots.len() == 0 {
        roots.push(path("."));
    }
    roots
}

/// There is always a root. Roots that are given stay as they are, each in its place; without any,
/// the only one is the current directory.
pub proof fn law_roots_are_kept_or_the_current_directory(
    roots: Vec<PathBuf>,
    chosen: Vec<PathBuf>,
)
    requires
        call_ensures(roots_or_cwd, (roots,), chosen),
    ensures
        chosen@.len() > 0,
        roots@.len() > 0 ==> chosen@.len() == roots@.len() && forall|i: int|
            0 <= i < roots@.len() ==> #[trigger] chosen@[i] == roots@[i],
        roots@.len() == 0 ==> chosen@.len() == 1 && chosen@[0] == path_from("."@),
{
}

} // verus!
