//! The build's internal path space and the rule that turns a path into the
//! reference under which the finished site serves it.

use vstd::prelude::*;
use vstd::string::*;

verus! {

/// A path is absolute when it starts at the root of the path space.
pub open spec fn is_absolute(path: Seq<char>) -> bool {
    path.len() > 0 && path[0] == '/'
}

/// The path of the site's index file.
pub open spec fn index_path() -> Seq<char> {
    seq!['/', 'i', 'n', 'd', 'e', 'x', '.', 'h', 't', 'm', 'l']
}

/// The reference of the site's root.
pub open spec fn root_reference() -> Seq<char> {
    seq!['/']
}

/// The reference under which the finished site serves `path`: the root for
/// the index file, the path itself for every other file.
pub open spec fn reference_of(path: Seq<char>) -> Seq<char> {
    if path == index_path() {
        root_reference()
    } else {
        path
    }
}

/// Tells whether `path` starts at the root of the path space.
pub fn path_is_absolute(path: &str) -> (absolute: bool)
    ensures
        absolute == is_absolute(path@),
{
    if path.is_empty() {
        false
    } else {
        path.get_char(0) == '/'
    }
}

/// Computes the site reference of `path`.
pub fn reference(path: &str) -> (reference: String)
    ensures
        reference@ == reference_of(path@),
{
    let index = "/index.html";
    proof {
        reveal_strlit("/index.html");
        reveal_strlit("/");
    }
    assert(index@ =~= index_path());
    let owned = path.to_owned();
    if owned == index.to_owned() {
        "/".to_owned()
    } else {
        owned
    }
}

/// The part of `path` below the root of the path space: the path without
/// its leading separator.
pub open spec fn relative_of(path: Seq<char>) -> Seq<char> {
    if is_absolute(path) {
        path.skip(1)
    } else {
        path
    }
}

/// The place of the file for `path` under the output root `root`: the
/// relative part of `path` appended to `root`, with one separator between
/// them unless `root` is empty or already ends in one.
pub open spec fn destination_of(root: Seq<char>, path: Seq<char>) -> Seq<char> {
    if root.len() == 0 {
        relative_of(path)
    } else if root.last() == '/' {
        root + relative_of(path)
    } else {
        root + seq!['/'] + relative_of(path)
    }
}

/// Computes the place of the file for `path` under the output root `root`.
pub fn destination(root: &str, path: &str) -> (destination: String)
    ensures
        destination@ == destination_of(root@, path@),
{
    let relative = if path_is_absolute(path) {
        path.substring_char(1, path.unicode_len())
    } else {
        path
    };
    assert(relative@ =~= relative_of(path@));
    let root_len = root.unicode_len();
    if root_len == 0 {
        relative.to_owned()
    } else if root.get_char(root_len - 1) == '/' {
        root.to_owned().concat(relative)
    } else {
        proof {
            reveal_strlit("/");
        }
        assert("/"@ =~= seq!['/']);
        root.to_owned().concat("/").concat(relative)
    }
}

/// Two different absolute paths have different relative parts.
proof fn lemma_relative_parts_differ(first: Seq<char>, second: Seq<char>)
    requires
        is_absolute(first),
        is_absolute(second),
        first != second,
    ensures
        relative_of(first) != relative_of(second),
{
    if relative_of(first) == relative_of(second) {
        assert(first =~= seq!['/'] + first.skip(1));
        assert(second =~= seq!['/'] + second.skip(1));
    }
}

/// Appending different texts to one prefix gives different texts.
proof fn lemma_suffixes_differ(prefix: Seq<char>, first: Seq<char>, second: Seq<char>)
    requires
        first != second,
    ensures
        prefix + first != prefix + second,
{
    if prefix + first == prefix + second {
        assert((prefix + first).skip(prefix.len() as int) =~= first);
        assert((prefix + second).skip(prefix.len() as int) =~= second);
    }
}

/// Under one output root, different declared paths are written to different
/// places: no two artifacts of a plan share a file.
pub proof fn lemma_destinations_differ(root: Seq<char>, first: Seq<char>, second: Seq<char>)
    requires
        is_absolute(first),
        is_absolute(second),
        first != second,
    ensures
        destination_of(root, first) != destination_of(root, second),
{
    lemma_relative_parts_differ(first, second);
    if root.len() == 0 {
    } else if root.last() == '/' {
        lemma_suffixes_differ(root, relative_of(first), relative_of(second));
    } else {
        lemma_suffixes_differ(root + seq!['/'], relative_of(first), relative_of(second));
    }
}

/// Every absolute path has a reference that is not empty, and the index
/// file's reference is the root, not the file's own name.
pub proof fn lemma_reference_is_not_empty(path: Seq<char>)
    requires
        is_absolute(path),
    ensures
        reference_of(path).len() > 0,
        is_absolute(reference_of(path)),
        reference_of(index_path()) == root_reference(),
        reference_of(index_path()) != index_path(),
{
    assert(index_path().len() == 11);
    assert(root_reference().len() == 1);
    assert(root_reference()[0] == '/');
}

} // verus!
