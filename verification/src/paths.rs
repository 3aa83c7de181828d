//! File system paths as texts.
use vstd::prelude::*;

use crate::text::{last_position, lemma_last_position_in_range};

verus! {

/// The final component of a path in which it follows the last slash.
pub open spec fn final_name(path: Seq<char>) -> Seq<char> {
    path.skip(last_position(path, '/') + 1)
}

/// What stands before the final component of a path in which it follows the last slash.
pub open spec fn directory_of(path: Seq<char>) -> Seq<char> {
    let slash = last_position(path, '/');
    if slash < 0 {
        Seq::empty()
    } else if slash == 0 {
        path.take(1)
    } else {
        path.take(slash)
    }
}

/// A path that ends in a file name, which is what follows the last slash, on every platform: it is
/// neither empty nor begins with two dots nor is a dot, holds nothing that some platforms take for
/// a separator or for the end of a drive, and does not belong to a prefix such as some platforms
/// have.
pub open spec fn ends_in_name(path: Seq<char>) -> bool {
    let name = final_name(path);
    &&& name.len() > 0
    &&& name != seq!['.']
    &&& !(name.len() >= 2 && name[0] == '.' && name[1] == '.')
    &&& !name.contains('\\')
    &&& !name.contains(':')
    &&& last_position(path, '/') > 0 ==> !((path[0] == '/' || path[0] == '\\') && (path[1] == '/'
        || path[1] == '\\'))
}

/// A path that ends in a file name and whose directory is all that stands before the last slash, on
/// every platform: what stands there ends neither in a separator nor in the colon of a drive, and
/// not in a component of a single dot either, unless it is that dot alone. A path in the present
/// directory or in the one above it is plain.
pub open spec fn is_plain(path: Seq<char>) -> bool {
    let slash = last_position(path, '/');
    &&& ends_in_name(path)
    &&& slash > 0 ==> {
        &&& path[slash - 1] != '/'
        &&& path[slash - 1] != '\\'
        &&& path[slash - 1] != ':'
        &&& path[slash - 1] == '.' ==> slash == 1 || (path[slash - 2] != '/' && path[slash - 2]
            != '\\' && path[slash - 2] != ':')
    }
}

/// A path that every platform takes apart alike, at its slashes: it holds no backslash, names no
/// drive, and does not begin with two slashes.
pub open spec fn is_portable(path: Seq<char>) -> bool {
    &&& !path.contains('\\')
    &&& !(path.len() >= 2 && path[1] == ':')
    &&& !(path.len() >= 2 && path[0] == '/' && path[1] == '/')
}

/// The components of a portable path: the root as a slash, then the names between the slashes.
/// Repeated and trailing slashes do not count, nor does a single dot but at the beginning.
pub open spec fn components(path: Seq<char>) -> Seq<Seq<char>>
    decreases path.len(),
{
    let slash = last_position(path, '/');
    let name = final_name(path);
    let before = if slash < 0 {
        Seq::empty()
    } else if slash == 0 {
        seq![seq!['/']]
    } else {
        proof {
            lemma_last_position_in_range(path, '/');
        }
        components(path.take(slash))
    };
    if name.len() == 0 || (name == seq!['.'] && slash >= 0) {
        before
    } else {
        before.push(name)
    }
}

/// A portable path with a component besides the root, so that there is a path without the last one.
pub open spec fn has_parent(path: Seq<char>) -> bool {
    components(path).len() > 0 && components(path).last() != seq!['/']
}

/// A portable path whose last component is a file name, and one that does not begin with two dots.
pub open spec fn names_file(path: Seq<char>) -> bool {
    let name = components(path).last();
    &&& has_parent(path)
    &&& name != seq!['.']
    &&& !(name.len() >= 2 && name[0] == '.' && name[1] == '.')
}

/// A portable path that is empty or ends in the root, in a single dot or in two dots.
pub open spec fn names_no_file(path: Seq<char>) -> bool {
    let name = components(path).last();
    !has_parent(path) || name == seq!['.'] || name == seq!['.', '.']
}

/// `Path::parent`: the path without its final component, or `None` where it is empty or ends in a
/// root. A parent is a shorter leading part of the path. That of a portable path has all of its
/// components but the last, and that of a plain path is what stands before its last slash. How much
/// goes with the final component where separators or single dots stand before it is not stated, nor
/// what the components of a path are that is not portable.
#[verifier::external_body]
pub(crate) fn path_parent(path: &str) -> (r: Option<String>)
    ensures
        path@.len() == 0 ==> r is None,
        r matches Some(parent) ==> parent@.is_prefix_of(path@) && parent@.len() < path@.len(),
        ends_in_name(path@) ==> r is Some,
        is_plain(path@) ==> r->0@ == directory_of(path@),
        is_portable(path@) ==> (r is Some <==> has_parent(path@)),
        r matches Some(parent) ==> is_portable(path@) ==> components(parent@) == components(
            path@,
        ).drop_last(),
{
    let parent = std::path::Path::new(path).parent();
    parent.and_then(|parent| parent.to_str()).map(|parent| parent.to_string())
}

/// A file name with another extension: what follows its last dot is replaced, unless it has no dot
/// but a leading one; to such a name the extension is added.
pub open spec fn renamed(name: Seq<char>, extension: Seq<char>) -> Seq<char> {
    let dot = last_position(name, '.');
    let stem = if dot > 0 {
        name.take(dot)
    } else {
        name
    };
    stem.push('.') + extension
}

/// A path with another extension on its final name.
pub open spec fn replaced_extension(path: Seq<char>, extension: Seq<char>) -> Seq<char> {
    path.take(last_position(path, '/') + 1) + renamed(final_name(path), extension)
}

/// `Path::with_extension`: the path with the extension of its file name replaced, or added where it
/// has none; the path as it is where it has no file name. It panics on an extension that holds a
/// separator. What it gives for a file name that begins with two dots is not stated, nor what the
/// file name of a path is that neither is portable nor ends in a file name.
#[verifier::external_body]
pub(crate) fn path_with_extension(path: &str, extension: &str) -> (r: String)
    requires
        extension@.len() > 0,
        !extension@.contains('/'),
        !extension@.contains('\\'),
    ensures
        ends_in_name(path@) ==> r@ == replaced_extension(path@, extension@),
        is_portable(path@) && names_file(path@) ==> components(r@) == components(
            path@,
        ).drop_last().push(renamed(components(path@).last(), extension@)),
        is_portable(path@) && names_no_file(path@) ==> r@ == path@,
{
    let renamed = std::path::Path::new(path).with_extension(extension);
    renamed.to_string_lossy().into_owned()
}

/// The root has no parent.
pub(crate) proof fn lemma_root()
    ensures
        is_portable("/"@),
        !has_parent("/"@),
{
    reveal_strlit("/");
    assert(last_position("/"@, '/') == 0);
    assert(final_name("/"@).len() == 0);
    assert(components("/"@) == seq![seq!['/']]);
    assert(!"/"@.contains('\\'));
}

} // verus!
