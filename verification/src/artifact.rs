//! Declared output files: a path and the means to obtain the file's bytes.

use url::Url;
use vstd::prelude::*;

use crate::paths::is_absolute;

verus! {

/// `url::Url`, a parsed URL. The library never looks inside one: it carries
/// the value from the declaration to the fetch that the plan asks for.
#[verifier::external_type_specification]
#[verifier::external_body]
pub struct ExUrl(Url);

/// How the bytes of one artifact are obtained.
///
/// `R` is the caller's renderer: whatever the caller runs, once the set of
/// declared paths is frozen, to produce the bytes from a `Targets`.
pub enum ContentSource<R> {
    /// Bytes known when the artifact is declared.
    InlineBytes(Vec<u8>),
    /// Bytes fetched from a URL when the site is built.
    RemoteFetch(Url),
    /// Bytes rendered by the caller once every declared path is known.
    DeferredRender(R),
}

/// One declared output file. Its path is its identity: the source plays no
/// part in telling two artifacts apart.
pub struct OutputArtifact<R> {
    path: String,
    source: ContentSource<R>,
}

impl<R> PartialEq for OutputArtifact<R> {
    /// Two artifacts are equal when they declare the same path, whatever
    /// their sources.
    fn eq(&self, other: &Self) -> (equal: bool) {
        self.path == other.path
    }
}

impl<R> Eq for OutputArtifact<R> {}

impl<R> vstd::std_specs::cmp::PartialEqSpecImpl for OutputArtifact<R> {
    open spec fn obeys_eq_spec() -> bool {
        true
    }

    open spec fn eq_spec(&self, other: &Self) -> bool {
        self.same_artifact(other)
    }
}

impl<R> OutputArtifact<R> {
    /// Every declared path is absolute in the build's path space.
    #[verifier::type_invariant]
    spec fn path_is_absolute(&self) -> bool {
        is_absolute(self.path@)
    }

    /// The declared path.
    pub closed spec fn spec_path(&self) -> Seq<char> {
        self.path@
    }

    /// The declared source.
    pub closed spec fn spec_source(&self) -> ContentSource<R> {
        self.source
    }

    /// Whether two artifacts are the same artifact: they declare one path.
    pub open spec fn same_artifact(&self, other: &Self) -> bool {
        self.spec_path() == other.spec_path()
    }

    /// Declares the file at `path`, with its bytes obtained from `source`.
    pub fn new(path: String, source: ContentSource<R>) -> (artifact: Self)
        requires
            is_absolute(path@),
        ensures
            artifact.spec_path() == path@,
            artifact.spec_source() == source,
    {
        Self { path, source }
    }

    /// The declared path.
    pub fn path(&self) -> (path: &str)
        ensures
            path@ == self.spec_path(),
            is_absolute(path@),
    {
        proof {
            use_type_invariant(self);
        }
        self.path.as_str()
    }

    /// The declared source.
    pub fn source(&self) -> (source: &ContentSource<R>)
        ensures
            *source == self.spec_source(),
    {
        &self.source
    }

    /// Takes the artifact apart into its path and its source.
    pub fn into_parts(self) -> (parts: (String, ContentSource<R>))
        ensures
            parts.0@ == self.spec_path(),
            parts.1 == self.spec_source(),
            is_absolute(parts.0@),
    {
        proof {
            use_type_invariant(&self);
        }
        (self.path, self.source)
    }
}

} // verus!
