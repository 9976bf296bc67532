//! The frozen set of declared paths, as seen from one artifact.

use vstd::prelude::*;
use vstd::string::*;

use crate::paths::{
    index_path, is_absolute, lemma_reference_is_not_empty, reference, reference_of, root_reference,
};

verus! {

/// The paths that a list of declarations names.
pub open spec fn path_set(paths: Seq<String>) -> Set<Seq<char>> {
    Set::new(|path: Seq<char>| exists|i: int| 0 <= i < paths.len() && #[trigger] paths[i]@ == path)
}

/// A reference was asked for a path that no artifact declares.
#[derive(Debug)]
pub struct TargetNotFoundError {
    target: String,
}

impl View for TargetNotFoundError {
    type V = Seq<char>;

    /// The path that was asked for.
    closed spec fn view(&self) -> Seq<char> {
        self.target@
    }
}

impl Clone for TargetNotFoundError {
    fn clone(&self) -> (copy: Self)
        ensures
            copy@ == self@,
    {
        Self { target: self.target.clone() }
    }
}

impl TargetNotFoundError {
    /// An error that names `target` as the missing path.
    pub fn new(target: String) -> (error: Self)
        ensures
            error@ == target@,
    {
        Self { target }
    }

    /// The path that was asked for.
    pub fn target(&self) -> (target: &str)
        ensures
            target@ == self@,
    {
        self.target.as_str()
    }

    /// The text of the error: a fixed prefix, then the missing path.
    pub open spec fn message_of(target: Seq<char>) -> Seq<char> {
        "target not found: "@ + target
    }

    /// Renders the error as text.
    pub fn message(&self) -> (message: String)
        ensures
            message@ == Self::message_of(self@),
    {
        "target not found: ".to_owned().concat(self.target.as_str())
    }
}

/// What a `Targets` stands for: the path of the artifact being produced and
/// the set of every declared path.
pub ghost struct TargetsView {
    pub current: Seq<char>,
    pub all: Set<Seq<char>>,
}

impl TargetsView {
    /// The reference that resolving `path` gives: that of `path` where some
    /// artifact declares it, none where no artifact does.
    pub open spec fn resolve(self, path: Seq<char>) -> Option<Seq<char>> {
        if self.all.contains(path) {
            Some(reference_of(path))
        } else {
            None
        }
    }
}

/// An immutable view over the complete set of declared paths, handed to the
/// source of one artifact.
#[derive(Debug)]
pub struct Targets {
    current: String,
    all: Vec<String>,
}

impl View for Targets {
    type V = TargetsView;

    closed spec fn view(&self) -> TargetsView {
        TargetsView { current: self.current@, all: path_set(self.all@) }
    }
}

/// Whether some entry of `paths` equals `path`.
pub(crate) fn holds_path(paths: &Vec<String>, path: &str) -> (found: bool)
    ensures
        found == path_set(paths@).contains(path@),
{
    let wanted = path.to_owned();
    let mut i: usize = 0;
    while i < paths.len()
        invariant
            i <= paths.len(),
            wanted@ == path@,
            forall|j: int| 0 <= j < i ==> paths@[j]@ != path@,
        decreases paths.len() - i,
    {
        if paths[i] == wanted {
            return true;
        }
        i += 1;
    }
    false
}

/// A copy of a list of paths.
pub(crate) fn copy_paths(paths: &Vec<String>) -> (copy: Vec<String>)
    ensures
        copy@ == paths@,
{
    let mut copy: Vec<String> = Vec::new();
    let mut i: usize = 0;
    while i < paths.len()
        invariant
            i <= paths.len(),
            copy@ == paths@.take(i as int),
        decreases paths.len() - i,
    {
        copy.push(paths[i].clone());
        assert(copy@ =~= paths@.take(i + 1));
        i += 1;
    }
    assert(paths@.take(paths.len() as int) =~= paths@);
    copy
}

impl Clone for Targets {
    fn clone(&self) -> (copy: Self)
        ensures
            copy@ == self@,
    {
        proof {
            use_type_invariant(self);
        }
        Self { current: self.current.clone(), all: copy_paths(&self.all) }
    }
}

impl Targets {
    /// The artifact being produced is itself declared, under an absolute path.
    #[verifier::type_invariant]
    spec fn current_is_declared(&self) -> bool {
        is_absolute(self.current@) && path_set(self.all@).contains(self.current@)
    }

    /// The view over `all`, as seen from the artifact at `current`.
    pub fn new(current: String, all: Vec<String>) -> (targets: Self)
        requires
            is_absolute(current@),
            path_set(all@).contains(current@),
        ensures
            targets@.current == current@,
            targets@.all == path_set(all@),
    {
        Self { current, all }
    }

    /// The site reference of the artifact declared at `path`.
    ///
    /// Fails, naming `path`, exactly when no artifact declares it.
    pub fn path_of(&self, path: &str) -> (reference: Result<String, TargetNotFoundError>)
        requires
            is_absolute(path@),
        ensures
            match reference {
                Ok(found) => self@.resolve(path@) == Some(found@),
                Err(error) => self@.resolve(path@) is None && error@ == path@,
            },
    {
        if holds_path(&self.all, path) {
            Ok(reference(path))
        } else {
            Err(TargetNotFoundError::new(path.to_owned()))
        }
    }

    /// The site reference of the artifact being produced.
    pub fn current_path(&self) -> (reference: String)
        ensures
            self@.resolve(self@.current) == Some(reference@),
    {
        proof {
            use_type_invariant(self);
        }
        reference(self.current.as_str())
    }
}

/// Resolving a declared path gives its reference, the same one every time:
/// a text that is not empty, and the root for the index file rather than the
/// file's own name.
pub proof fn lemma_declared_paths_resolve(targets: TargetsView, path: Seq<char>)
    requires
        is_absolute(path),
        targets.all.contains(path),
    ensures
        targets.resolve(path) == Some(reference_of(path)),
        reference_of(path).len() > 0,
        path == index_path() ==> targets.resolve(path) == Some(root_reference()),
        path != index_path() ==> targets.resolve(path) == Some(path),
{
    lemma_reference_is_not_empty(path);
}

/// Resolving a path that no artifact declares gives nothing: no reference
/// is made up for it.
pub proof fn lemma_undeclared_paths_do_not_resolve(targets: TargetsView, path: Seq<char>)
    requires
        !targets.all.contains(path),
    ensures
        targets.resolve(path) is None,
{
}

} // verus!
