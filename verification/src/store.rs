//! The artifacts: documents kept by the path they answer.

use vstd::prelude::*;
use vstd::string::*;
use vstd::hash_map::*;

verus! {

/// A document and the path it answers.
#[derive(Clone, Debug, PartialEq, Eq)]
pub struct Artifact {
    pub path: String,
    pub document: String,
}

/// Documents by path: at most one for a path.
pub struct ArtifactStore {
    files: StringHashMap<String>,
}

impl View for ArtifactStore {
    type V = Map<Seq<char>, Seq<char>>;

    closed spec fn view(&self) -> Map<Seq<char>, Seq<char>> {
        self.files@.map_values(|d: String| d@)
    }
}

impl ArtifactStore {
    /// The store without an artifact.
    pub fn new() -> (s: ArtifactStore)
        ensures
            s@ == Map::<Seq<char>, Seq<char>>::empty(),
    {
        let s = ArtifactStore { files: StringHashMap::new() };
        assert(s@ =~= Map::<Seq<char>, Seq<char>>::empty());
        s
    }

    /// Keeps `artifact`, in place of any artifact of the same path.
    pub fn write(&mut self, artifact: Artifact)
        ensures
            final(self)@ == old(self)@.insert(artifact.path@, artifact.document@),
    {
        let ghost path = artifact.path@;
        let ghost document = artifact.document@;
        self.files.insert(artifact.path, artifact.document);
        assert(self@ =~= old(self)@.insert(path, document));
    }

    /// The document kept for `path`, where there is one.
    pub fn read(&self, path: &str) -> (r: Option<&String>)
        ensures
            match r {
                Some(d) => self@.contains_key(path@) && d@ == self@[path@],
                None => !self@.contains_key(path@),
            },
    {
        self.files.get(path)
    }

    /// Whether a document is kept for `path`.
    pub fn contains(&self, path: &str) -> (b: bool)
        ensures
            b == self@.contains_key(path@),
    {
        self.files.contains_key(path)
    }

    /// The number of artifacts.
    pub fn len(&self) -> (n: usize)
        ensures
            n == self@.len(),
    {
        let n = self.files.len();
        assert(self@.dom() =~= self.files@.dom());
        n
    }
}

} // verus!
