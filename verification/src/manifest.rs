//! The manifest model: what the patch state manager reads and rewrites in a
//! package manifest, held as plain values.
//!
//! A manifest document is an ordered, comment-preserving tree; the logic
//! here touches only a few well-defined parts of it: the authoritative
//! dependency table, the patch section, and a private metadata block.  The
//! [`Manifest`] type holds exactly those parts.  Whatever else a document
//! contains is outside the model and is untouched by construction.

use vstd::prelude::*;

use crate::source::{GitReference, GitReferenceV};

verus! {

// ---------------------------------------------------------------------------
// Dependency declarations
// ---------------------------------------------------------------------------

/// One dependency declaration, in one of the three shapes a manifest allows:
/// a bare version string, an inline attribute table, or a full sub-table.
/// Only the fields the patch logic reads are modelled; an inline or full
/// table may carry further fields, which survive untouched because versions
/// are edited field-wise.
#[derive(Debug, PartialEq)]
pub enum DepDecl {
    /// `crate = "1.2.3"`
    Plain { version: String },
    /// `crate = { version = "1.2.3", git = "...", ... }`
    Inline { version: Option<String>, git: Option<String> },
    /// `[dependencies.crate]` with the same possible fields.
    Table { version: Option<String>, git: Option<String> },
}

/// The mathematical value of a dependency declaration.
#[verifier::ext_equal]
pub enum DepDeclV {
    Plain { version: Seq<char> },
    Inline { version: Option<Seq<char>>, git: Option<Seq<char>> },
    Table { version: Option<Seq<char>>, git: Option<Seq<char>> },
}

impl DepDecl {
    pub open spec fn view(&self) -> DepDeclV {
        match self {
            DepDecl::Plain { version } => DepDeclV::Plain { version: version@ },
            DepDecl::Inline { version, git } => DepDeclV::Inline {
                version: opt_str_view(version),
                git: opt_str_view(git),
            },
            DepDecl::Table { version, git } => DepDeclV::Table {
                version: opt_str_view(version),
                git: opt_str_view(git),
            },
        }
    }
}

pub open spec fn opt_str_view(o: &Option<String>) -> Option<Seq<char>> {
    match o {
        Some(s) => Some(s@),
        None => None,
    }
}

impl Clone for DepDecl {
    fn clone(&self) -> (r: Self)
        ensures
            r@ == self@,
    {
        match self {
            DepDecl::Plain { version } => DepDecl::Plain { version: version.clone() },
            DepDecl::Inline { version, git } => DepDecl::Inline {
                version: clone_opt_str(version),
                git: clone_opt_str(git),
            },
            DepDecl::Table { version, git } => DepDecl::Table {
                version: clone_opt_str(version),
                git: clone_opt_str(git),
            },
        }
    }
}

pub fn clone_opt_str(o: &Option<String>) -> (r: Option<String>)
    ensures
        opt_str_view(&r) == opt_str_view(o),
{
    match o {
        Some(s) => Some(s.clone()),
        None => None,
    }
}

/// One entry of a dependency table, keyed by crate name.
#[derive(Debug, PartialEq)]
pub struct DepEntry {
    pub name: String,
    pub decl: DepDecl,
}

/// The mathematical value of a dependency entry.
#[verifier::ext_equal]
pub struct DepEntryV {
    pub name: Seq<char>,
    pub decl: DepDeclV,
}

impl DepEntry {
    pub open spec fn view(&self) -> DepEntryV {
        DepEntryV { name: self.name@, decl: self.decl@ }
    }
}

impl Clone for DepEntry {
    fn clone(&self) -> (r: Self)
        ensures
            r@ == self@,
    {
        DepEntry { name: self.name.clone(), decl: self.decl.clone() }
    }
}

// ---------------------------------------------------------------------------
// Patch section
// ---------------------------------------------------------------------------

/// Where a patch entry redirects a crate to.  `Other` stands for an entry
/// this tool did not author and does not read; it is carried through
/// untouched.
#[derive(Debug, PartialEq)]
pub enum PatchTarget {
    Path { path: String },
    Git { url: String, reference: Option<GitReference> },
    Other,
}

/// The mathematical value of a patch target.
#[verifier::ext_equal]
pub enum PatchTargetV {
    Path { path: Seq<char> },
    Git { url: Seq<char>, reference: Option<GitReferenceV> },
    Other,
}

impl PatchTarget {
    pub open spec fn view(&self) -> PatchTargetV {
        match self {
            PatchTarget::Path { path } => PatchTargetV::Path { path: path@ },
            PatchTarget::Git { url, reference } => PatchTargetV::Git {
                url: url@,
                reference: match reference {
                    Some(r) => Some(r@),
                    None => None,
                },
            },
            PatchTarget::Other => PatchTargetV::Other,
        }
    }
}

impl Clone for PatchTarget {
    fn clone(&self) -> (r: Self)
        ensures
            r@ == self@,
    {
        match self {
            PatchTarget::Path { path } => PatchTarget::Path { path: path.clone() },
            PatchTarget::Git { url, reference } => PatchTarget::Git {
                url: url.clone(),
                reference: match reference {
                    Some(GitReference::Branch(b)) => Some(GitReference::Branch(b.clone())),
                    Some(GitReference::Tag(t)) => Some(GitReference::Tag(t.clone())),
                    Some(GitReference::Rev(v)) => Some(GitReference::Rev(v.clone())),
                    None => None,
                },
            },
            PatchTarget::Other => PatchTarget::Other,
        }
    }
}

/// One entry of a patch origin table, keyed by crate name.
#[derive(Debug, PartialEq)]
pub struct PatchEntry {
    pub name: String,
    pub target: PatchTarget,
}

/// The mathematical value of a patch entry.
#[verifier::ext_equal]
pub struct PatchEntryV {
    pub name: Seq<char>,
    pub target: PatchTargetV,
}

impl PatchEntry {
    pub open spec fn view(&self) -> PatchEntryV {
        PatchEntryV { name: self.name@, target: self.target@ }
    }
}

impl Clone for PatchEntry {
    fn clone(&self) -> (r: Self)
        ensures
            r@ == self@,
    {
        PatchEntry { name: self.name.clone(), target: self.target.clone() }
    }
}

/// One origin table of the patch section: `[patch.<origin>]` with its
/// entries, in document order.
#[derive(Debug, PartialEq)]
pub struct OriginTable {
    pub origin: String,
    pub entries: Vec<PatchEntry>,
}

/// The mathematical value of an origin table.
#[verifier::ext_equal]
pub struct OriginTableV {
    pub origin: Seq<char>,
    pub entries: Seq<PatchEntryV>,
}

impl OriginTable {
    pub open spec fn view(&self) -> OriginTableV {
        OriginTableV { origin: self.origin@, entries: view_patch_entries(self.entries@) }
    }
}

pub open spec fn view_patch_entries(s: Seq<PatchEntry>) -> Seq<PatchEntryV> {
    s.map_values(|e: PatchEntry| e@)
}

impl Clone for OriginTable {
    fn clone(&self) -> (r: Self)
        ensures
            r@ == self@,
    {
        let r = OriginTable { origin: self.origin.clone(), entries: clone_patch_entries(&self.entries) };
        proof {
            assert(r@.entries =~= self@.entries);
        }
        r
    }
}

pub fn clone_patch_entries(v: &Vec<PatchEntry>) -> (r: Vec<PatchEntry>)
    ensures
        view_patch_entries(r@) == view_patch_entries(v@),
{
    let mut r: Vec<PatchEntry> = Vec::new();
    let mut i: usize = 0;
    while i < v.len()
        invariant
            i <= v.len(),
            r@.len() == i,
            forall|j: int| 0 <= j < i ==> r@[j]@ == v@[j]@,
        decreases v.len() - i,
    {
        r.push(v[i].clone());
        i = i + 1;
    }
    proof {
        assert(view_patch_entries(r@) =~= view_patch_entries(v@));
    }
    r
}

// ---------------------------------------------------------------------------
// Managed state
// ---------------------------------------------------------------------------

/// The state this tool persists inside the manifest's private metadata
/// namespace: the pre-patch version of every crate currently under
/// management (an empty version string means "had no version field"), and
/// the patch-table keys this tool has written entries into.
#[derive(Debug, PartialEq)]
pub struct ManagedState {
    /// Crate name to recorded version, kept sorted by name.
    pub original_versions: Vec<(String, String)>,
    /// Origin keys, in insertion order, duplicates suppressed.
    pub managed_patches: Vec<String>,
}

/// The mathematical value of the managed state.
#[verifier::ext_equal]
pub struct ManagedStateV {
    pub original_versions: Seq<(Seq<char>, Seq<char>)>,
    pub managed_patches: Seq<Seq<char>>,
}

impl ManagedState {
    pub open spec fn view(&self) -> ManagedStateV {
        ManagedStateV {
            original_versions: view_pairs(self.original_versions@),
            managed_patches: view_strs(self.managed_patches@),
        }
    }
}

pub open spec fn view_pairs(s: Seq<(String, String)>) -> Seq<(Seq<char>, Seq<char>)> {
    s.map_values(|p: (String, String)| (p.0@, p.1@))
}

pub open spec fn view_strs(s: Seq<String>) -> Seq<Seq<char>> {
    s.map_values(|x: String| x@)
}

impl Clone for ManagedState {
    fn clone(&self) -> (r: Self)
        ensures
            r@ == self@,
    {
        let r = ManagedState {
            original_versions: clone_pairs(&self.original_versions),
            managed_patches: clone_strs(&self.managed_patches),
        };
        proof {
            assert(r@ =~= self@);
        }
        r
    }
}

pub fn clone_pairs(v: &Vec<(String, String)>) -> (r: Vec<(String, String)>)
    ensures
        view_pairs(r@) == view_pairs(v@),
{
    let mut r: Vec<(String, String)> = Vec::new();
    let mut i: usize = 0;
    while i < v.len()
        invariant
            i <= v.len(),
            r@.len() == i,
            forall|j: int| 0 <= j < i ==> r@[j].0@ == v@[j].0@ && r@[j].1@ == v@[j].1@,
        decreases v.len() - i,
    {
        r.push((v[i].0.clone(), v[i].1.clone()));
        i = i + 1;
    }
    proof {
        assert(view_pairs(r@) =~= view_pairs(v@));
    }
    r
}

pub fn clone_strs(v: &Vec<String>) -> (r: Vec<String>)
    ensures
        view_strs(r@) == view_strs(v@),
{
    let mut r: Vec<String> = Vec::new();
    let mut i: usize = 0;
    while i < v.len()
        invariant
            i <= v.len(),
            r@.len() == i,
            forall|j: int| 0 <= j < i ==> r@[j]@ == v@[j]@,
        decreases v.len() - i,
    {
        r.push(v[i].clone());
        i = i + 1;
    }
    proof {
        assert(view_strs(r@) =~= view_strs(v@));
    }
    r
}

// ---------------------------------------------------------------------------
// The manifest
// ---------------------------------------------------------------------------

/// The modelled parts of one manifest document.
#[derive(Debug, PartialEq)]
pub struct Manifest {
    /// Whether the document declares a workspace section.
    pub has_workspace: bool,
    /// The workspace-level dependency table, if the workspace section has
    /// one.  It takes precedence over the package-level table.
    pub workspace_deps: Option<Vec<DepEntry>>,
    /// The package-level dependency table, if present.
    pub package_deps: Option<Vec<DepEntry>>,
    /// The patch section: one table per origin key, in document order.
    pub patch: Vec<OriginTable>,
    /// This tool's metadata block under the workspace metadata section.
    pub workspace_metadata: Option<ManagedState>,
    /// This tool's metadata block under the package metadata section.
    pub package_metadata: Option<ManagedState>,
}

/// The mathematical value of a manifest.
#[verifier::ext_equal]
pub struct ManifestV {
    pub has_workspace: bool,
    pub workspace_deps: Option<Seq<DepEntryV>>,
    pub package_deps: Option<Seq<DepEntryV>>,
    pub patch: Seq<OriginTableV>,
    pub workspace_metadata: Option<ManagedStateV>,
    pub package_metadata: Option<ManagedStateV>,
}

pub open spec fn view_deps(s: Seq<DepEntry>) -> Seq<DepEntryV> {
    s.map_values(|d: DepEntry| d@)
}

pub open spec fn view_opt_deps(o: &Option<Vec<DepEntry>>) -> Option<Seq<DepEntryV>> {
    match o {
        Some(v) => Some(view_deps(v@)),
        None => None,
    }
}

pub open spec fn view_patch(s: Seq<OriginTable>) -> Seq<OriginTableV> {
    s.map_values(|t: OriginTable| t@)
}

pub open spec fn view_opt_state(o: &Option<ManagedState>) -> Option<ManagedStateV> {
    match o {
        Some(st) => Some(st@),
        None => None,
    }
}

impl Manifest {
    pub open spec fn view(&self) -> ManifestV {
        ManifestV {
            has_workspace: self.has_workspace,
            workspace_deps: view_opt_deps(&self.workspace_deps),
            package_deps: view_opt_deps(&self.package_deps),
            patch: view_patch(self.patch@),
            workspace_metadata: view_opt_state(&self.workspace_metadata),
            package_metadata: view_opt_state(&self.package_metadata),
        }
    }
}

// ---------------------------------------------------------------------------
// Reading declarations
// ---------------------------------------------------------------------------

/// The declared version of a dependency, from whichever of the three
/// shapes applies; none if the declaration has no version field (a
/// git-only dependency, for example).
pub open spec fn decl_version(d: DepDeclV) -> Option<Seq<char>> {
    match d {
        DepDeclV::Plain { version } => Some(version),
        DepDeclV::Inline { version, .. } => version,
        DepDeclV::Table { version, .. } => version,
    }
}

/// The declared git URL of a dependency, across the same shapes.
pub open spec fn decl_git(d: DepDeclV) -> Option<Seq<char>> {
    match d {
        DepDeclV::Plain { .. } => None,
        DepDeclV::Inline { git, .. } => git,
        DepDeclV::Table { git, .. } => git,
    }
}

/// Setting a declaration's version: a bare string is replaced wholesale; an
/// inline or full table is updated only if it already has a version field.
/// A declaration without one is never given one: adding a version to a
/// git-pinned dependency would change its resolution semantics.
pub open spec fn set_decl_version(d: DepDeclV, v: Seq<char>) -> DepDeclV {
    match d {
        DepDeclV::Plain { .. } => DepDeclV::Plain { version: v },
        DepDeclV::Inline { version, git } => {
            if version is Some {
                DepDeclV::Inline { version: Some(v), git }
            } else {
                d
            }
        },
        DepDeclV::Table { version, git } => {
            if version is Some {
                DepDeclV::Table { version: Some(v), git }
            } else {
                d
            }
        },
    }
}

/// First entry of `deps` named `name`, if any.
pub open spec fn lookup_dep(deps: Seq<DepEntryV>, name: Seq<char>) -> Option<DepEntryV>
    decreases deps.len(),
{
    if deps.len() == 0 {
        None
    } else if deps[0].name == name {
        Some(deps[0])
    } else {
        lookup_dep(deps.skip(1), name)
    }
}

pub open spec fn has_dep(deps: Seq<DepEntryV>, name: Seq<char>) -> bool {
    lookup_dep(deps, name) is Some
}

/// The declared version of the dependency named `name`, if both exist.
pub open spec fn version_of(deps: Seq<DepEntryV>, name: Seq<char>) -> Option<Seq<char>> {
    match lookup_dep(deps, name) {
        Some(d) => decl_version(d.decl),
        None => None,
    }
}

/// The declared version of `name`, or the empty string when the entry or
/// its version field is absent.  The empty string is this tool's recorded
/// placeholder for "had no version field".
pub open spec fn version_or_empty(deps: Seq<DepEntryV>, name: Seq<char>) -> Seq<char> {
    match version_of(deps, name) {
        Some(v) => v,
        None => Seq::empty(),
    }
}

/// The declared git URL of the dependency named `name`, if both exist.
pub open spec fn git_of(deps: Seq<DepEntryV>, name: Seq<char>) -> Option<Seq<char>> {
    match lookup_dep(deps, name) {
        Some(d) => decl_git(d.decl),
        None => None,
    }
}

// ---------------------------------------------------------------------------
// Reading the manifest
// ---------------------------------------------------------------------------

/// The authoritative dependency table: the workspace-level table if the
/// document has one, otherwise the package-level table, otherwise none.
pub open spec fn deps_table_of(m: ManifestV) -> Option<Seq<DepEntryV>> {
    if m.workspace_deps is Some {
        m.workspace_deps
    } else {
        m.package_deps
    }
}

/// The authoritative dependency table, or the empty table if there is none.
pub open spec fn cur_deps(m: ManifestV) -> Seq<DepEntryV> {
    match deps_table_of(m) {
        Some(d) => d,
        None => Seq::empty(),
    }
}

/// `m` with its authoritative dependency table replaced by `d`.  A
/// manifest without a dependency table is returned unchanged.
pub open spec fn with_deps(m: ManifestV, d: Seq<DepEntryV>) -> ManifestV {
    if m.workspace_deps is Some {
        ManifestV { workspace_deps: Some(d), ..m }
    } else if m.package_deps is Some {
        ManifestV { package_deps: Some(d), ..m }
    } else {
        m
    }
}

/// Every entry named `name` with its version set per `set_decl_version`;
/// all other entries unchanged.
pub open spec fn set_version_in(deps: Seq<DepEntryV>, name: Seq<char>, v: Seq<char>) -> Seq<
    DepEntryV,
> {
    deps.map_values(
        |d: DepEntryV|
            if d.name == name {
                DepEntryV { name: d.name, decl: set_decl_version(d.decl, v) }
            } else {
                d
            },
    )
}

/// The whole effect of `update_dependency_version` on a manifest.
pub open spec fn spec_update_version(m: ManifestV, name: Seq<char>, v: Seq<char>) -> ManifestV {
    if deps_table_of(m) is Some {
        with_deps(m, set_version_in(cur_deps(m), name, v))
    } else {
        m
    }
}

// ---------------------------------------------------------------------------
// Executable accessors
// ---------------------------------------------------------------------------

/// Check whether the document declares a workspace section.
pub fn is_workspace(m: &Manifest) -> (r: bool)
    ensures
        r == m@.has_workspace,
{
    m.has_workspace
}

/// The authoritative dependency table for reading, if any.
pub fn get_dependencies_table<'a>(m: &'a Manifest) -> (r: Option<&'a Vec<DepEntry>>)
    ensures
        match r {
            Some(d) => deps_table_of(m@) == Some(view_deps(d@)),
            None => deps_table_of(m@) is None,
        },
{
    match &m.workspace_deps {
        Some(d) => Some(d),
        None => match &m.package_deps {
            Some(d) => Some(d),
            None => None,
        },
    }
}

/// The declared version of one dependency declaration, if any.
pub fn get_dependency_version(decl: &DepDecl) -> (r: Option<String>)
    ensures
        opt_str_view(&r) == decl_version(decl@),
{
    match decl {
        DepDecl::Plain { version } => Some(version.clone()),
        DepDecl::Inline { version, .. } => clone_opt_str(version),
        DepDecl::Table { version, .. } => clone_opt_str(version),
    }
}

/// The declared git URL of one dependency declaration, if any.
pub fn get_dependency_git_url(decl: &DepDecl) -> (r: Option<String>)
    ensures
        opt_str_view(&r) == decl_git(decl@),
{
    match decl {
        DepDecl::Plain { .. } => None,
        DepDecl::Inline { git, .. } => clone_opt_str(git),
        DepDecl::Table { git, .. } => clone_opt_str(git),
    }
}

/// First entry of `deps` named `name`, if any.
fn find_dep<'a>(deps: &'a Vec<DepEntry>, name: &str) -> (r: Option<&'a DepEntry>)
    ensures
        match r {
            Some(d) => lookup_dep(view_deps(deps@), name@) == Some(d@),
            None => lookup_dep(view_deps(deps@), name@) is None,
        },
{
    let ghost dv = view_deps(deps@);
    proof {
        assert(dv.skip(0) =~= dv);
    }
    let n = deps.len();
    let mut i: usize = 0;
    while i < n
        invariant
            i <= n,
            n == deps@.len(),
            dv == view_deps(deps@),
            dv.len() == n,
            lookup_dep(dv, name@) == lookup_dep(dv.skip(i as int), name@),
        decreases n - i,
    {
        proof {
            assert(dv.skip(i as int)[0] == dv[i as int]);
            assert(dv.skip(i as int).skip(1) =~= dv.skip(i as int + 1));
        }
        if crate::strutil::str_eq(deps[i].name.as_str(), name) {
            return Some(&deps[i]);
        }
        i = i + 1;
    }
    proof {
        assert(dv.skip(n as int) =~= Seq::<DepEntryV>::empty());
    }
    None
}

/// Update a dependency's declared version in the authoritative table.
/// Silently a no-op if the table or the crate is absent; a declaration
/// without a version field is left untouched.
pub fn update_dependency_version(m: &mut Manifest, crate_name: &str, new_version: &str)
    ensures
        final(m)@ == spec_update_version(old(m)@, crate_name@, new_version@),
{
    let ghost m0 = old(m)@;
    let deps: &mut Vec<DepEntry> = match &mut m.workspace_deps {
        Some(d) => d,
        None => match &mut m.package_deps {
            Some(d) => d,
            None => {
                return ;
            },
        },
    };
    let ghost dv = view_deps(deps@);
    let n = deps.len();
    let mut i: usize = 0;
    while i < n
        invariant
            i <= n,
            n == deps@.len(),
            dv.len() == n,
            forall|j: int| i <= j < n ==> deps@[j]@ == dv[j],
            forall|j: int|
                0 <= j < i ==> deps@[j]@ == set_version_in(dv, crate_name@, new_version@)[j],
        decreases n - i,
    {
        if crate::strutil::str_eq(deps[i].name.as_str(), crate_name) {
            let d = updated_decl(&deps[i].decl, new_version);
            let e = DepEntry { name: deps[i].name.clone(), decl: d };
            deps[i] = e;
        }
        i = i + 1;
    }
    proof {
        assert(view_deps(deps@) =~= set_version_in(dv, crate_name@, new_version@));
        assert(final(m)@ =~= spec_update_version(m0, crate_name@, new_version@));
    }
}

/// Decide whether the dependency table holds an entry named `name`.
pub fn has_dependency(deps: &Vec<DepEntry>, name: &str) -> (r: bool)
    ensures
        r == has_dep(view_deps(deps@), name@),
{
    match find_dep(deps, name) {
        Some(_) => true,
        None => false,
    }
}

/// The declared version of the dependency named `name`, or the empty
/// string when the entry or its version field is absent.
pub fn dependency_version_or_empty(deps: &Vec<DepEntry>, name: &str) -> (r: String)
    ensures
        r@ == version_or_empty(view_deps(deps@), name@),
{
    match find_dep(deps, name) {
        Some(d) => match get_dependency_version(&d.decl) {
            Some(v) => v,
            None => String::new(),
        },
        None => String::new(),
    }
}

// ---------------------------------------------------------------------------
// Source origin inference
// ---------------------------------------------------------------------------

/// How many of `names` declare `url` as their git origin in `deps`.
pub open spec fn git_count(deps: Seq<DepEntryV>, names: Seq<Seq<char>>, url: Seq<char>) -> nat
    decreases names.len(),
{
    if names.len() == 0 {
        0
    } else {
        (if git_of(deps, names[0]) == Some(url) {
            1nat
        } else {
            0nat
        }) + git_count(deps, names.skip(1), url)
    }
}

/// A url that no name declares is never counted.
pub proof fn lemma_git_count_zero(deps: Seq<DepEntryV>, names: Seq<Seq<char>>, url: Seq<char>)
    requires
        forall|j: int| 0 <= j < names.len() ==> git_of(deps, names[j]) != Some(url),
    ensures
        git_count(deps, names, url) == 0,
    decreases names.len(),
{
    if names.len() > 0 {
        assert forall|j: int| 0 <= j < names.skip(1).len() implies git_of(
            deps,
            names.skip(1)[j],
        ) != Some(url) by {
            assert(names.skip(1)[j] == names[j + 1]);
        }
        lemma_git_count_zero(deps, names.skip(1), url);
    }
}

/// The declared git URL of the dependency named `name`, if both exist.
fn git_url_of(deps: &Vec<DepEntry>, name: &str) -> (r: Option<String>)
    ensures
        opt_str_view(&r) == git_of(view_deps(deps@), name@),
{
    match find_dep(deps, name) {
        Some(d) => get_dependency_git_url(&d.decl),
        None => None,
    }
}

/// Count how many of `names` declare `url` as their git origin.
fn count_git_matches(deps: &Vec<DepEntry>, names: &Vec<String>, url: &str) -> (c: usize)
    ensures
        c == git_count(view_deps(deps@), view_strs(names@), url@),
{
    let ghost dv = view_deps(deps@);
    let ghost nv = view_strs(names@);
    proof {
        assert(nv.skip(0) =~= nv);
    }
    let n = names.len();
    let mut c: usize = 0;
    let mut i: usize = 0;
    while i < n
        invariant
            i <= n,
            c <= i,
            c + git_count(dv, nv.skip(i as int), url@) == git_count(dv, nv, url@),
        decreases n - i,
    {
        proof {
            assert(nv.skip(i as int)[0] == nv[i as int]);
            assert(nv.skip(i as int).skip(1) =~= nv.skip(i as int + 1));
            assert(nv[i as int] == names@[i as int]@);
        }
        let matches_url = match git_url_of(deps, names[i].as_str()) {
            Some(g) => crate::strutil::str_eq(g.as_str(), url),
            None => false,
        };
        if matches_url {
            c = c + 1;
        }
        i = i + 1;
    }
    proof {
        assert(nv.skip(n as int) =~= Seq::<Seq<char>>::empty());
    }
    c
}

/// The git URL that a strict majority of `crate_names` declare in the
/// authoritative dependency table, if there is one; a tie or a plurality
/// short of a majority yields none, so the default registry origin is used
/// instead.
pub fn detect_common_git_url(m: &Manifest, crate_names: &Vec<String>) -> (r: Option<String>)
    ensures
        match r {
            Some(u) => git_count(cur_deps(m@), view_strs(crate_names@), u@) > view_strs(
                crate_names@,
            ).len() / 2,
            None => forall|u: Seq<char>|
                git_count(cur_deps(m@), view_strs(crate_names@), u) <= view_strs(
                    crate_names@,
                ).len() / 2,
        },
{
    let ghost nv = view_strs(crate_names@);
    let half = crate_names.len() / 2;
    let deps = match get_dependencies_table(m) {
        Some(d) => d,
        None => {
            proof {
                assert forall|u: Seq<char>| git_count(cur_deps(m@), nv, u) <= nv.len() / 2 by {
                    assert forall|j: int| 0 <= j < nv.len() implies git_of(
                        cur_deps(m@),
                        nv[j],
                    ) != Some(u) by {
                        assert(lookup_dep(cur_deps(m@), nv[j]) is None);
                    }
                    lemma_git_count_zero(cur_deps(m@), nv, u);
                }
            }
            return None;
        },
    };
    let ghost dv = cur_deps(m@);
    let n = crate_names.len();
    let mut i: usize = 0;
    while i < n
        invariant
            i <= n,
            n == crate_names@.len(),
            dv == view_deps(deps@),
            forall|j: int|
                0 <= j < i ==> match #[trigger] git_of(dv, nv[j]) {
                    Some(g) => git_count(dv, nv, g) <= nv.len() / 2,
                    None => true,
                },
        decreases n - i,
    {
        proof {
            assert(nv[i as int] == crate_names@[i as int]@);
        }
        match git_url_of(deps, crate_names[i].as_str()) {
            Some(u) => {
                let c = count_git_matches(deps, crate_names, u.as_str());
                if c > half {
                    return Some(u);
                }
            },
            None => {},
        }
        i = i + 1;
    }
    proof {
        assert forall|u: Seq<char>| git_count(dv, nv, u) <= nv.len() / 2 by {
            if git_count(dv, nv, u) > nv.len() / 2 {
                lemma_git_count_pos(dv, nv, u);
                let j = choose|j: int| 0 <= j < nv.len() && git_of(dv, nv[j]) == Some(u);
                assert(git_count(dv, nv, u) <= nv.len() / 2);
            }
        }
    }
    None
}

/// A positive count means some name declares the url.
pub proof fn lemma_git_count_pos(deps: Seq<DepEntryV>, names: Seq<Seq<char>>, url: Seq<char>)
    requires
        git_count(deps, names, url) > 0,
    ensures
        exists|j: int| 0 <= j < names.len() && git_of(deps, names[j]) == Some(url),
    decreases names.len(),
{
    if names.len() > 0 {
        if git_of(deps, names[0]) == Some(url) {
            assert(0 <= 0 < names.len() && git_of(deps, names[0]) == Some(url));
        } else {
            lemma_git_count_pos(deps, names.skip(1), url);
            let j = choose|j: int|
                0 <= j < names.skip(1).len() && git_of(deps, names.skip(1)[j]) == Some(url);
            assert(names.skip(1)[j] == names[j + 1]);
            assert(git_of(deps, names[j + 1]) == Some(url));
        }
    }
}

/// A declaration with its version set per `set_decl_version`.
fn updated_decl(d: &DepDecl, v: &str) -> (r: DepDecl)
    ensures
        r@ == set_decl_version(d@, v@),
{
    match d {
        DepDecl::Plain { .. } => DepDecl::Plain { version: String::from_str(v) },
        DepDecl::Inline { version, git } => match version {
            Some(_) => DepDecl::Inline {
                version: Some(String::from_str(v)),
                git: clone_opt_str(git),
            },
            None => d.clone(),
        },
        DepDecl::Table { version, git } => match version {
            Some(_) => DepDecl::Table {
                version: Some(String::from_str(v)),
                git: clone_opt_str(git),
            },
            None => d.clone(),
        },
    }
}

} // verus!
