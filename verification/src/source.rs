//! Where patches come from and which manifest they are applied to.

use vstd::prelude::*;

verus! {

/// Path to a source workspace (where crates are read from).
pub struct SourceWorkspacePath {
    path: String,
}

impl SourceWorkspacePath {
    pub closed spec fn view(&self) -> Seq<char> {
        self.path@
    }

    pub fn new(path: String) -> (r: Self)
        ensures
            r@ == path@,
    {
        SourceWorkspacePath { path }
    }

    pub fn as_path(&self) -> (r: &String)
        ensures
            r@ == self@,
    {
        &self.path
    }
}

/// Path to a target manifest (the Cargo.toml being patched).
pub struct TargetManifestPath {
    path: String,
}

impl TargetManifestPath {
    pub closed spec fn view(&self) -> Seq<char> {
        self.path@
    }

    pub fn new(path: String) -> (r: Self)
        ensures
            r@ == path@,
    {
        TargetManifestPath { path }
    }

    pub fn as_path(&self) -> (r: &String)
        ensures
            r@ == self@,
    {
        &self.path
    }
}

/// Git reference kinds: a branch, a tag, or a revision.
#[derive(Debug, PartialEq)]
pub enum GitReference {
    Branch(String),
    Tag(String),
    Rev(String),
}

/// The mathematical value of a git reference.
pub enum GitReferenceV {
    Branch(Seq<char>),
    Tag(Seq<char>),
    Rev(Seq<char>),
}

impl GitReference {
    pub open spec fn view(&self) -> GitReferenceV {
        match self {
            GitReference::Branch(b) => GitReferenceV::Branch(b@),
            GitReference::Tag(t) => GitReferenceV::Tag(t@),
            GitReference::Rev(r) => GitReferenceV::Rev(r@),
        }
    }
}

impl Clone for GitReference {
    fn clone(&self) -> (r: Self)
        ensures
            r@ == self@,
    {
        match self {
            GitReference::Branch(b) => GitReference::Branch(b.clone()),
            GitReference::Tag(t) => GitReference::Tag(t.clone()),
            GitReference::Rev(v) => GitReference::Rev(v.clone()),
        }
    }
}

/// The mathematical value of an optional git reference.
pub open spec fn view_opt_ref(o: &Option<GitReference>) -> Option<GitReferenceV> {
    match o {
        Some(r) => Some(r@),
        None => None,
    }
}

/// Clone an optional git reference.
pub fn clone_opt_ref(o: &Option<GitReference>) -> (r: Option<GitReference>)
    ensures
        view_opt_ref(&r) == view_opt_ref(o),
{
    match o {
        Some(gr) => Some(gr.clone()),
        None => None,
    }
}

/// The source of patches: a local workspace or a git repository.
pub enum PatchSource {
    /// Local filesystem path to a workspace (where crates are read from).
    LocalPath(SourceWorkspacePath),
    /// Git repository URL with an optional reference.
    Git { url: String, reference: Option<GitReference> },
}

impl PatchSource {
    /// Create a local path source.
    pub fn local_path(path: String) -> (r: Self)
        ensures
            r is LocalPath,
            r->LocalPath_0@ == path@,
    {
        PatchSource::LocalPath(SourceWorkspacePath::new(path))
    }

    /// Create a git source.
    pub fn git(url: String, reference: Option<GitReference>) -> (r: Self)
        ensures
            r == (PatchSource::Git { url, reference }),
    {
        PatchSource::Git { url, reference }
    }

    /// Check whether this is a local path source.
    pub fn is_local(&self) -> (r: bool)
        ensures
            r == (self is LocalPath),
    {
        match self {
            PatchSource::LocalPath(_) => true,
            PatchSource::Git { .. } => false,
        }
    }

    /// Check whether this is a git source.
    pub fn is_git(&self) -> (r: bool)
        ensures
            r == (self is Git),
    {
        match self {
            PatchSource::LocalPath(_) => false,
            PatchSource::Git { .. } => true,
        }
    }
}

} // verus!
