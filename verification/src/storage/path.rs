//! Paths.

use vstd::prelude::*;

verus! {

/// Where what follows the last slash begins.
pub open spec fn name_start(path: Seq<char>) -> int
    decreases path.len(),
{
    if path.len() == 0 || path.last() == '/' {
        path.len() as int
    } else {
        name_start(path.drop_last())
    }
}

/// What follows the last slash is a part of the path.
pub proof fn name_start_is_inside(path: Seq<char>)
    ensures
        0 <= name_start(path) <= path.len(),
        path.len() > 0 && path.last() != '/' ==> name_start(path) < path.len(),
    decreases path.len(),
{
    if path.len() > 0 && path.last() != '/' {
        name_start_is_inside(path.drop_last());
    }
}

/// The last component of a path, if that is a name. Slashes at the end count for nothing, nor does a
/// component that is a single dot. Two dots are no name.
pub open spec fn file_name_of(path: Seq<char>) -> Option<Seq<char>>
    decreases path.len(),
{
    proof {
        name_start_is_inside(path);
    }
    if path.len() == 0 {
        None
    } else if path.last() == '/' {
        file_name_of(path.drop_last())
    } else {
        let at = name_start(path);
        let name = path.skip(at);
        if name == "."@ {
            file_name_of(path.take(at))
        } else if name == ".."@ {
            None
        } else {
            Some(name)
        }
    }
}

/// A path followed by another: one that starts at the root stands alone, and any other comes behind
/// a slash.
pub open spec fn joined_path(base: Seq<char>, part: Seq<char>) -> Seq<char> {
    if part.len() > 0 && part[0] == '/' {
        part
    } else if base.len() == 0 || base.last() == '/' {
        base + part
    } else {
        base.push('/') + part
    }
}

/// The last component of a path, as `camino::Utf8Path::file_name` finds it where paths are those of
/// Unix. What the components of a path are is what `camino::Utf8Path::components` says: repeated and
/// trailing slashes count for nothing, nor do single dots, and a path that ends in two dots, or has
/// no component but the root or a single dot, has no such name.
#[verifier::external_body]
pub(crate) fn file_name(path: &str) -> (name: Option<String>)
    ensures
        match name {
            Some(name) => file_name_of(path@) == Some(name@),
            None => file_name_of(path@) is None,
        },
{
    camino::Utf8Path::new(path).file_name().map(String::from)
}

/// A path followed by another, as `camino::Utf8Path::join` makes it of the two where paths are those
/// of Unix: a path from the root replaces the one before it, and any other is put behind it, with a
/// slash between them unless there is one or nothing comes before.
#[verifier::external_body]
pub(crate) fn join_path(base: &str, part: &str) -> (path: String)
    ensures
        path@ == joined_path(base@, part@),
{
    camino::Utf8Path::new(base).join(part).into_string()
}

} // verus!
