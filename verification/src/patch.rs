//! The patch state manager: apply, remove, and the idempotent re-apply and
//! prune cycle.
//!
//! Both operations are pure transformations of the [`Manifest`] model; the
//! surrounding program reads the document, hands the model in, and writes
//! the returned [`ChangeSet`] back into the document.  A failure returns no
//! outcome at all, so nothing is ever written for a failed operation.

use vstd::prelude::*;

use crate::cargo_ops::{
    filter_crates, filter_crates_by_pattern, parent_dir, parent_dir_of, view_crates, CrateInfo,
    CrateInfoV,
};
use crate::error::PatchError;
use crate::manifest::{
    cur_deps, git_count, has_dep, version_or_empty, view_deps, view_pairs, view_patch, view_strs,
    DepEntry, DepEntryV, Manifest, ManifestV, OriginTableV, PatchEntryV, PatchTarget, PatchTargetV,
};
use crate::pattern::glob_matches;
use crate::source::{GitReference, GitReferenceV, PatchSource};
use crate::store::{
    add_managed_patch, add_patch_section, existing_patched, get_managed_patches,
    get_original_versions, managed_of, originals_of, pair_keys, remove_managed_patches,
    spec_add_managed, spec_add_patch_section, spec_remove_managed, spec_store_originals,
    store_original_versions,
};

verus! {

// ---------------------------------------------------------------------------
// The change set handed to the document writer
// ---------------------------------------------------------------------------

/// One patch entry to write under `[patch.<origin>]`.
#[derive(Debug)]
pub struct PatchAddition {
    pub origin: String,
    pub name: String,
    pub target: PatchTarget,
}

/// The mathematical value of a patch addition.
#[verifier::ext_equal]
pub struct PatchAdditionV {
    pub origin: Seq<char>,
    pub name: Seq<char>,
    pub target: PatchTargetV,
}

impl PatchAddition {
    pub open spec fn view(&self) -> PatchAdditionV {
        PatchAdditionV { origin: self.origin@, name: self.name@, target: self.target@ }
    }
}

pub open spec fn view_additions(s: Seq<PatchAddition>) -> Seq<PatchAdditionV> {
    s.map_values(|a: PatchAddition| a@)
}

/// The edits a finished operation asks the document writer to make, in
/// order: set the listed dependency versions, drop the listed patch
/// entries (pruning tables left empty), then write the listed patch
/// entries.  The metadata block is rewritten from the returned manifest.
#[derive(Debug)]
pub struct ChangeSet {
    /// `(crate, version)`: set in the authoritative dependency table.
    pub version_sets: Vec<(String, String)>,
    /// `(origin, crate)`: drop from `[patch.<origin>]`.
    pub patch_removals: Vec<(String, String)>,
    /// New entries for the patch section.
    pub patch_additions: Vec<PatchAddition>,
}

// ---------------------------------------------------------------------------
// The pipeline, in specification form
// ---------------------------------------------------------------------------

/// The recorded pairs that carry a version to restore: an empty recorded
/// version means "had no version field" and is never restored.
pub open spec fn nonempty_pairs(ps: Seq<(Seq<char>, Seq<char>)>) -> Seq<(Seq<char>, Seq<char>)>
    decreases ps.len(),
{
    if ps.len() == 0 {
        Seq::empty()
    } else {
        let rest = nonempty_pairs(ps.drop_last());
        if ps.last().1.len() > 0 {
            rest.push(ps.last())
        } else {
            rest
        }
    }
}

/// Versions set one after the other, each per `spec_update_version`.
pub open spec fn spec_restore_versions(m: ManifestV, ps: Seq<(Seq<char>, Seq<char>)>) -> ManifestV
    decreases ps.len(),
{
    if ps.len() == 0 {
        m
    } else {
        spec_restore_versions(
            crate::manifest::spec_update_version(m, ps[0].0, ps[0].1),
            ps.skip(1),
        )
    }
}

/// Setting versions touches only the dependency tables.
pub proof fn lemma_restore_preserves(m: ManifestV, ps: Seq<(Seq<char>, Seq<char>)>)
    ensures
        spec_restore_versions(m, ps).has_workspace == m.has_workspace,
        spec_restore_versions(m, ps).patch == m.patch,
        spec_restore_versions(m, ps).workspace_metadata == m.workspace_metadata,
        spec_restore_versions(m, ps).package_metadata == m.package_metadata,
    decreases ps.len(),
{
    if ps.len() > 0 {
        lemma_restore_preserves(
            crate::manifest::spec_update_version(m, ps[0].0, ps[0].1),
            ps.skip(1),
        );
    }
}

/// The versions the self-clean step restores: every recorded non-empty
/// version, when any managed state exists at all.
pub open spec fn restores_of(m: ManifestV) -> Seq<(Seq<char>, Seq<char>)> {
    if managed_of(m).len() > 0 {
        nonempty_pairs(originals_of(m))
    } else {
        Seq::empty()
    }
}

/// The patch entries removed by a clean or a removal: every recorded crate
/// from every managed origin table.  Nothing is removed when no managed
/// state or no patch section exists.
pub open spec fn removals_of(m: ManifestV) -> Seq<(Seq<char>, Seq<char>)> {
    if managed_of(m).len() > 0 && m.patch.len() > 0 {
        cross_pairs(managed_of(m), pair_keys(originals_of(m)))
    } else {
        Seq::empty()
    }
}

pub open spec fn pairs_with(k: Seq<char>, ns: Seq<Seq<char>>) -> Seq<(Seq<char>, Seq<char>)> {
    ns.map_values(|n: Seq<char>| (k, n))
}

/// Every `(key, name)` pair, keys outermost, in order.
pub open spec fn cross_pairs(ks: Seq<Seq<char>>, ns: Seq<Seq<char>>) -> Seq<(Seq<char>, Seq<char>)>
    decreases ks.len(),
{
    if ks.len() == 0 {
        Seq::empty()
    } else {
        cross_pairs(ks.drop_last(), ns) + pairs_with(ks.last(), ns)
    }
}

/// The self-clean step: with managed state present, restore every recorded
/// non-empty version and strip the recorded crates from their managed
/// origin tables; with none, leave the manifest alone.  A manifest whose
/// patch section is gone keeps its metadata, exactly as a removal would
/// have refused it.
pub open spec fn spec_self_clean(m: ManifestV) -> ManifestV {
    if managed_of(m).len() == 0 {
        m
    } else {
        let restored = spec_restore_versions(m, nonempty_pairs(originals_of(m)));
        if restored.patch.len() == 0 {
            restored
        } else {
            spec_remove_managed(restored)
        }
    }
}

// ---------------------------------------------------------------------------
// Shared executable steps
// ---------------------------------------------------------------------------

/// The recorded pairs whose version is non-empty.
fn nonempty_of(ps: &Vec<(String, String)>) -> (r: Vec<(String, String)>)
    ensures
        view_pairs(r@) == nonempty_pairs(view_pairs(ps@)),
{
    let ghost pv = view_pairs(ps@);
    let mut r: Vec<(String, String)> = Vec::new();
    let n = ps.len();
    let mut i: usize = 0;
    proof {
        assert(pv.take(0) =~= Seq::<(Seq<char>, Seq<char>)>::empty());
    }
    while i < n
        invariant
            i <= n,
            view_pairs(r@) == nonempty_pairs(pv.take(i as int)),
        decreases n - i,
    {
        proof {
            assert(pv[i as int] == (ps@[i as int].0@, ps@[i as int].1@));
        }
        let ghost before = view_pairs(r@);
        if !ps[i].1.as_str().is_empty() {
            r.push((ps[i].0.clone(), ps[i].1.clone()));
            proof {
                assert(view_pairs(r@) =~= before.push(pv[i as int]));
            }
        }
        i = i + 1;
        proof {
            assert(pv.take(i as int).drop_last() =~= pv.take(i as int - 1));
            assert(pv.take(i as int).last() == pv[i as int - 1]);
            assert(view_pairs(r@) =~= nonempty_pairs(pv.take(i as int)));
        }
    }
    proof {
        assert(pv.take(n as int) =~= pv);
    }
    r
}

/// Set each listed version in turn.
fn restore_versions(m: &mut Manifest, ps: &Vec<(String, String)>)
    ensures
        final(m)@ == spec_restore_versions(old(m)@, view_pairs(ps@)),
{
    let ghost pv = view_pairs(ps@);
    proof {
        assert(pv.skip(0) =~= pv);
    }
    let n = ps.len();
    let mut i: usize = 0;
    while i < n
        invariant
            i <= n,
            spec_restore_versions(m@, pv.skip(i as int)) == spec_restore_versions(old(m)@, pv),
        decreases n - i,
    {
        proof {
            assert(pv.skip(i as int)[0] == pv[i as int]);
            assert(pv.skip(i as int).skip(1) =~= pv.skip(i as int + 1));
            assert(pv[i as int] == (ps@[i as int].0@, ps@[i as int].1@));
        }
        crate::manifest::update_dependency_version(m, ps[i].0.as_str(), ps[i].1.as_str());
        i = i + 1;
    }
    proof {
        assert(pv.skip(n as int) =~= Seq::<(Seq<char>, Seq<char>)>::empty());
    }
}

/// Every `(origin, crate)` pair a clean or a removal drops.
fn cross_removals(managed: &Vec<String>, originals: &Vec<(String, String)>) -> (r: Vec<
    (String, String),
>)
    ensures
        view_pairs(r@) == cross_pairs(view_strs(managed@), pair_keys(view_pairs(originals@))),
{
    let ghost kv = view_strs(managed@);
    let ghost nv = pair_keys(view_pairs(originals@));
    let mut r: Vec<(String, String)> = Vec::new();
    let kn = managed.len();
    let mut i: usize = 0;
    proof {
        assert(kv.take(0) =~= Seq::<Seq<char>>::empty());
    }
    while i < kn
        invariant
            i <= kn,
            view_pairs(r@) == cross_pairs(kv.take(i as int), nv),
        decreases kn - i,
    {
        proof {
            assert(kv[i as int] == managed@[i as int]@);
        }
        let ghost outer_before = view_pairs(r@);
        let nn = originals.len();
        let mut j: usize = 0;
        proof {
            assert(nv.take(0) =~= Seq::<Seq<char>>::empty());
            assert(pairs_with(kv[i as int], nv.take(0)) =~= Seq::<(Seq<char>, Seq<char>)>::empty());
            assert(view_pairs(r@) =~= outer_before + pairs_with(kv[i as int], nv.take(0)));
        }
        while j < nn
            invariant
                j <= nn,
                i < kn,
                nn == originals@.len(),
                view_pairs(r@) == outer_before + pairs_with(kv[i as int], nv.take(j as int)),
            decreases nn - j,
        {
            proof {
                assert(nv[j as int] == originals@[j as int].0@);
            }
            let ghost inner_before = view_pairs(r@);
            r.push((managed[i].clone(), originals[j].0.clone()));
            j = j + 1;
            proof {
                assert(view_pairs(r@) =~= inner_before.push((kv[i as int], nv[j as int - 1])));
                assert(pairs_with(kv[i as int], nv.take(j as int)) =~= pairs_with(
                    kv[i as int],
                    nv.take(j as int - 1),
                ).push((kv[i as int], nv[j as int - 1])));
                assert(inner_before.push((kv[i as int], nv[j as int - 1])) =~= outer_before
                    + pairs_with(kv[i as int], nv.take(j as int)));
            }
        }
        i = i + 1;
        proof {
            assert(nv.take(nn as int) =~= nv);
            assert(kv.take(i as int).drop_last() =~= kv.take(i as int - 1));
            assert(kv.take(i as int).last() == kv[i as int - 1]);
            assert(view_pairs(r@) =~= cross_pairs(kv.take(i as int), nv));
        }
    }
    proof {
        assert(kv.take(kn as int) =~= kv);
    }
    r
}

/// Restore recorded versions and strip managed patch entries, so that the
/// following steps start from a clean slate even if no removal was ever
/// requested.  This is what makes repeated applications converge instead
/// of accumulating.
fn self_clean(m: &mut Manifest) -> (restored: Vec<(String, String)>)
    ensures
        final(m)@ == spec_self_clean(old(m)@),
        view_pairs(restored@) == restores_of(old(m)@),
{
    let managed = get_managed_patches(m);
    if managed.is_empty() {
        let r: Vec<(String, String)> = Vec::new();
        proof {
            assert(view_pairs(r@) =~= restores_of(old(m)@));
        }
        return r;
    }
    let previous = get_original_versions(m);
    let to_restore = nonempty_of(&previous);
    restore_versions(m, &to_restore);
    proof {
        lemma_restore_preserves(old(m)@, nonempty_pairs(originals_of(old(m)@)));
    }
    match remove_managed_patches(m) {
        Ok(_) => {},
        Err(_) => {},
    }
    to_restore
}

// ---------------------------------------------------------------------------
// Candidate selection and filtering, in specification form
// ---------------------------------------------------------------------------

pub open spec fn crate_names(cs: Seq<CrateInfoV>) -> Seq<Seq<char>> {
    cs.map_values(|c: CrateInfoV| c.name)
}

/// The candidates that the manifest currently depends on: a crate not
/// already declared is never patched.
pub open spec fn intersect_crates(cs: Seq<CrateInfoV>, deps: Seq<DepEntryV>) -> Seq<CrateInfoV>
    decreases cs.len(),
{
    if cs.len() == 0 {
        Seq::empty()
    } else {
        let rest = intersect_crates(cs.drop_last(), deps);
        if has_dep(deps, cs.last().name) {
            rest.push(cs.last())
        } else {
            rest
        }
    }
}

/// The candidates without a pre-existing patch entry anywhere in the patch
/// section: an entry this tool does not own is never clobbered.
pub open spec fn surviving_crates(cs: Seq<CrateInfoV>, patch: Seq<OriginTableV>) -> Seq<CrateInfoV>
    decreases cs.len(),
{
    if cs.len() == 0 {
        Seq::empty()
    } else {
        let rest = surviving_crates(cs.drop_last(), patch);
        if existing_patched(patch, cs.last().name) {
            rest
        } else {
            rest.push(cs.last())
        }
    }
}

/// The candidate names skipped for a pre-existing patch entry.
pub open spec fn skipped_crates(cs: Seq<CrateInfoV>, patch: Seq<OriginTableV>) -> Seq<Seq<char>>
    decreases cs.len(),
{
    if cs.len() == 0 {
        Seq::empty()
    } else {
        let rest = skipped_crates(cs.drop_last(), patch);
        if existing_patched(patch, cs.last().name) {
            rest.push(cs.last().name)
        } else {
            rest
        }
    }
}

/// The declared dependency names that entirely satisfy the pattern, in
/// table order.
pub open spec fn matching_names(deps: Seq<DepEntryV>, p: Seq<char>) -> Seq<Seq<char>>
    decreases deps.len(),
{
    if deps.len() == 0 {
        Seq::empty()
    } else {
        let rest = matching_names(deps.drop_last(), p);
        if glob_matches(p, deps.last().name) {
            rest.push(deps.last().name)
        } else {
            rest
        }
    }
}

/// The names without a pre-existing patch entry.
pub open spec fn surviving_names(ns: Seq<Seq<char>>, patch: Seq<OriginTableV>) -> Seq<Seq<char>>
    decreases ns.len(),
{
    if ns.len() == 0 {
        Seq::empty()
    } else {
        let rest = surviving_names(ns.drop_last(), patch);
        if existing_patched(patch, ns.last()) {
            rest
        } else {
            rest.push(ns.last())
        }
    }
}

/// The names skipped for a pre-existing patch entry.
pub open spec fn skipped_names(ns: Seq<Seq<char>>, patch: Seq<OriginTableV>) -> Seq<Seq<char>>
    decreases ns.len(),
{
    if ns.len() == 0 {
        Seq::empty()
    } else {
        let rest = skipped_names(ns.drop_last(), patch);
        if existing_patched(patch, ns.last()) {
            rest.push(ns.last())
        } else {
            rest
        }
    }
}

/// The versions recorded before mutation: for each name its declared
/// version, or the empty string for a declaration without one.
pub open spec fn originals_for(deps: Seq<DepEntryV>, ns: Seq<Seq<char>>) -> Seq<
    (Seq<char>, Seq<char>),
> {
    ns.map_values(|n: Seq<char>| (n, version_or_empty(deps, n)))
}

/// The version updates of the local flow: each surviving candidate whose
/// declaration carries a version is set to the candidate's own version; a
/// declaration without one is never touched.
pub open spec fn updates_for(deps: Seq<DepEntryV>, cs: Seq<CrateInfoV>) -> Seq<
    (Seq<char>, Seq<char>),
>
    decreases cs.len(),
{
    if cs.len() == 0 {
        Seq::empty()
    } else {
        let rest = updates_for(deps, cs.drop_last());
        if version_or_empty(deps, cs.last().name).len() > 0 {
            rest.push((cs.last().name, cs.last().version))
        } else {
            rest
        }
    }
}

/// The patch entries of the local flow: each candidate redirected to the
/// directory holding its manifest.
pub open spec fn local_entries(cs: Seq<CrateInfoV>) -> Seq<PatchEntryV> {
    cs.map_values(
        |c: CrateInfoV|
            PatchEntryV {
                name: c.name,
                target: PatchTargetV::Path { path: parent_dir(c.manifest_path) },
            },
    )
}

/// The patch entries of the git flow: each name redirected to the
/// requested URL and reference.
pub open spec fn git_entries(
    ns: Seq<Seq<char>>,
    url: Seq<char>,
    reference: Option<GitReferenceV>,
) -> Seq<PatchEntryV> {
    ns.map_values(|n: Seq<char>| PatchEntryV { name: n, target: PatchTargetV::Git { url, reference } })
}

/// The additions of the change set, one per new patch entry.
pub open spec fn additions_for(key: Seq<char>, es: Seq<PatchEntryV>) -> Seq<PatchAdditionV> {
    es.map_values(|e: PatchEntryV| PatchAdditionV { origin: key, name: e.name, target: e.target })
}

/// Entries inserted one after the other under origin `key`.
pub open spec fn spec_add_entries(m: ManifestV, key: Seq<char>, es: Seq<PatchEntryV>) -> ManifestV
    decreases es.len(),
{
    if es.len() == 0 {
        m
    } else {
        spec_add_entries(spec_add_patch_section(m, key, es[0]), key, es.skip(1))
    }
}

/// The whole mutation step of a successful apply, after the self-clean:
/// versions updated, fresh state recorded, the chosen origin key managed,
/// and one patch entry written per surviving candidate.
pub open spec fn spec_apply_mutation(
    m1: ManifestV,
    originals: Seq<(Seq<char>, Seq<char>)>,
    updates: Seq<(Seq<char>, Seq<char>)>,
    key: Seq<char>,
    entries: Seq<PatchEntryV>,
) -> ManifestV {
    spec_add_entries(
        spec_add_managed(
            spec_store_originals(spec_restore_versions(m1, updates), originals),
            key,
        ),
        key,
        entries,
    )
}

/// The origin key the local flow chooses: a git URL that a strict majority
/// of the names declare, or the default registry key.
pub open spec fn majority_or_default(
    deps: Seq<DepEntryV>,
    ns: Seq<Seq<char>>,
    key: Seq<char>,
) -> bool {
    git_count(deps, ns, key) > ns.len() / 2 || (key == "crates-io"@ && forall|u: Seq<char>|
        git_count(deps, ns, u) <= ns.len() / 2)
}

// ---------------------------------------------------------------------------
// Executable selection helpers
// ---------------------------------------------------------------------------

fn clone_crates(v: &Vec<CrateInfo>) -> (r: Vec<CrateInfo>)
    ensures
        view_crates(r@) == view_crates(v@),
{
    let mut r: Vec<CrateInfo> = Vec::new();
    let n = v.len();
    let mut i: usize = 0;
    while i < n
        invariant
            i <= n,
            r@.len() == i,
            forall|j: int| 0 <= j < i ==> r@[j]@ == v@[j]@,
        decreases n - i,
    {
        r.push(v[i].clone());
        i = i + 1;
    }
    proof {
        assert(view_crates(r@) =~= view_crates(v@));
    }
    r
}

fn names_of(cs: &Vec<CrateInfo>) -> (r: Vec<String>)
    ensures
        view_strs(r@) == crate_names(view_crates(cs@)),
{
    let mut r: Vec<String> = Vec::new();
    let n = cs.len();
    let mut i: usize = 0;
    while i < n
        invariant
            i <= n,
            r@.len() == i,
            forall|j: int| 0 <= j < i ==> r@[j]@ == cs@[j]@.name,
        decreases n - i,
    {
        r.push(cs[i].name.clone());
        i = i + 1;
    }
    proof {
        assert(view_strs(r@) =~= crate_names(view_crates(cs@)));
    }
    r
}

fn extend_pairs(a: &mut Vec<(String, String)>, b: &Vec<(String, String)>)
    ensures
        view_pairs(final(a)@) == view_pairs(old(a)@) + view_pairs(b@),
{
    let n = b.len();
    let mut i: usize = 0;
    proof {
        assert(view_pairs(b@).take(0) =~= Seq::<(Seq<char>, Seq<char>)>::empty());
        assert(view_pairs(a@) =~= view_pairs(old(a)@) + view_pairs(b@).take(0));
    }
    while i < n
        invariant
            i <= n,
            view_pairs(a@) == view_pairs(old(a)@) + view_pairs(b@).take(i as int),
        decreases n - i,
    {
        let ghost before = view_pairs(a@);
        a.push((b[i].0.clone(), b[i].1.clone()));
        i = i + 1;
        proof {
            assert(view_pairs(b@)[i - 1] == (b@[i - 1].0@, b@[i - 1].1@));
            assert(view_pairs(a@) =~= before.push(view_pairs(b@)[i - 1]));
            assert(view_pairs(a@) =~= view_pairs(old(a)@) + view_pairs(b@).take(i as int));
        }
    }
    proof {
        assert(view_pairs(b@).take(n as int) =~= view_pairs(b@));
    }
}

/// What one source flow produces, before the caller assembles the outcome.
struct FlowOutcome {
    origin: Option<String>,
    patched: Vec<String>,
    skipped: Vec<String>,
    updates: Vec<(String, String)>,
    additions: Vec<PatchAddition>,
}

// ---------------------------------------------------------------------------
// The two source flows
// ---------------------------------------------------------------------------

/// The local-path flow, on a manifest the self-clean step has already
/// passed over: filter the offered workspace crates by pattern, keep those
/// the manifest depends on, skip those with a foreign patch entry, infer
/// the origin key, update versions, record state, and write path entries.
fn apply_local_path_patches(
    m: &mut Manifest,
    source_crates: &Vec<CrateInfo>,
    pattern: Option<&str>,
) -> (r: Result<FlowOutcome, PatchError>)
    ensures
        ({
            let crs = view_crates(source_crates@);
            let filtered = match pattern {
                None => crs,
                Some(p) => filter_crates(crs, p@),
            };
            let cands = intersect_crates(filtered, cur_deps(old(m)@));
            let survivors = surviving_crates(cands, old(m)@.patch);
            &&& (r is Err <==> pattern is Some && filter_crates(crs, pattern->Some_0@).len() == 0)
            &&& match r {
                Err(e) => final(m)@ == old(m)@ && (match e {
                    PatchError::NoMatchingCrates { pattern: pt } => pattern is Some && pt@
                        == pattern->Some_0@,
                    _ => false,
                }),
                Ok(out) => {
                    &&& view_strs(out.patched@) == crate_names(survivors)
                    &&& view_strs(out.skipped@) == skipped_crates(cands, old(m)@.patch)
                    &&& if survivors.len() == 0 {
                        &&& final(m)@ == old(m)@
                        &&& out.origin is None
                        &&& out.additions@.len() == 0
                        &&& out.updates@.len() == 0
                    } else {
                        let deps1 = cur_deps(old(m)@);
                        let names = crate_names(survivors);
                        &&& out.origin is Some
                        &&& majority_or_default(deps1, names, out.origin->Some_0@)
                        &&& final(m)@ == spec_apply_mutation(
                            old(m)@,
                            originals_for(deps1, names),
                            updates_for(deps1, survivors),
                            out.origin->Some_0@,
                            local_entries(survivors),
                        )
                        &&& view_pairs(out.updates@) == updates_for(deps1, survivors)
                        &&& view_additions(out.additions@) == additions_for(
                            out.origin->Some_0@,
                            local_entries(survivors),
                        )
                    }
                },
            }
        }),
{
    let ghost m1 = old(m)@;
    let ghost deps1 = cur_deps(old(m)@);
    let filtered = match filter_crates_by_pattern(clone_crates(source_crates), pattern) {
        Ok(v) => v,
        Err(e) => {
            return Err(e);
        },
    };
    let ghost fv = view_crates(filtered@);

    // Keep only crates the manifest currently depends on.
    let empty_deps: Vec<DepEntry> = Vec::new();
    let mut cands: Vec<CrateInfo> = Vec::new();
    {
        let deps_ref: &Vec<DepEntry> = match crate::manifest::get_dependencies_table(m) {
            Some(d) => d,
            None => &empty_deps,
        };
        proof {
            assert(view_deps(deps_ref@) =~= deps1);
            assert(fv.take(0) =~= Seq::<CrateInfoV>::empty());
        }
        let n = filtered.len();
        let mut i: usize = 0;
        while i < n
            invariant
                i <= n,
                view_crates(cands@) == intersect_crates(fv.take(i as int), deps1),
            decreases n - i,
        {
            proof {
                assert(fv[i as int] == filtered@[i as int]@);
            }
            let ghost before = view_crates(cands@);
            if crate::manifest::has_dependency(deps_ref, filtered[i].name.as_str()) {
                cands.push(filtered[i].clone());
                proof {
                    assert(view_crates(cands@) =~= before.push(fv[i as int]));
                }
            }
            i = i + 1;
            proof {
                assert(fv.take(i as int).drop_last() =~= fv.take(i as int - 1));
                assert(fv.take(i as int).last() == fv[i as int - 1]);
                assert(view_crates(cands@) =~= intersect_crates(fv.take(i as int), deps1));
            }
        }
        proof {
            assert(fv.take(n as int) =~= fv);
        }
    }
    let ghost cv = view_crates(cands@);

    // Skip candidates that already have a patch entry anywhere.
    let mut survivors: Vec<CrateInfo> = Vec::new();
    let mut skipped: Vec<String> = Vec::new();
    proof {
        assert(cv.take(0) =~= Seq::<CrateInfoV>::empty());
        assert(view_patch(m.patch@) == m@.patch);
    }
    let cn = cands.len();
    let mut i: usize = 0;
    while i < cn
        invariant
            i <= cn,
            m@ == old(m)@,
            view_crates(survivors@) == surviving_crates(cv.take(i as int), m1.patch),
            view_strs(skipped@) == skipped_crates(cv.take(i as int), m1.patch),
        decreases cn - i,
    {
        proof {
            assert(cv[i as int] == cands@[i as int]@);
        }
        let ghost sv_before = view_crates(survivors@);
        let ghost sk_before = view_strs(skipped@);
        if crate::store::has_existing_patch_entry(&m.patch, cands[i].name.as_str()) {
            skipped.push(cands[i].name.clone());
            proof {
                assert(view_strs(skipped@) =~= sk_before.push(cv[i as int].name));
            }
        } else {
            survivors.push(cands[i].clone());
            proof {
                assert(view_crates(survivors@) =~= sv_before.push(cv[i as int]));
            }
        }
        i = i + 1;
        proof {
            assert(cv.take(i as int).drop_last() =~= cv.take(i as int - 1));
            assert(cv.take(i as int).last() == cv[i as int - 1]);
            assert(view_crates(survivors@) =~= surviving_crates(cv.take(i as int), m1.patch));
            assert(view_strs(skipped@) =~= skipped_crates(cv.take(i as int), m1.patch));
        }
    }
    proof {
        assert(cv.take(cn as int) =~= cv);
    }
    let ghost sv = view_crates(survivors@);

    if survivors.is_empty() {
        let patched: Vec<String> = Vec::new();
        proof {
            assert(view_strs(patched@) =~= crate_names(sv));
        }
        return Ok(
            FlowOutcome {
                origin: None,
                patched,
                skipped,
                updates: Vec::new(),
                additions: Vec::new(),
            },
        );
    }

    // Choose the origin key.
    let names = names_of(&survivors);
    let git_url = crate::manifest::detect_common_git_url(m, &names);
    let key: String = match git_url {
        Some(u) => u,
        None => String::from_str("crates-io"),
    };
    proof {
        assert(majority_or_default(deps1, crate_names(sv), key@));
    }

    // Record pre-mutation versions, and collect the version updates.
    let mut originals: Vec<(String, String)> = Vec::new();
    let mut updates: Vec<(String, String)> = Vec::new();
    {
        let deps_ref: &Vec<DepEntry> = match crate::manifest::get_dependencies_table(m) {
            Some(d) => d,
            None => &empty_deps,
        };
        proof {
            assert(view_deps(deps_ref@) =~= deps1);
            assert(crate_names(sv).take(0) =~= Seq::<Seq<char>>::empty());
            assert(originals_for(deps1, crate_names(sv).take(0)) =~= Seq::<
                (Seq<char>, Seq<char>),
            >::empty());
        }
        let nn = names.len();
        let mut j: usize = 0;
        while j < nn
            invariant
                j <= nn,
                nn == names@.len(),
                view_pairs(originals@) == originals_for(deps1, crate_names(sv).take(j as int)),
            decreases nn - j,
        {
            proof {
                assert(crate_names(sv)[j as int] == names@[j as int]@);
            }
            let ghost before = view_pairs(originals@);
            let v = crate::manifest::dependency_version_or_empty(deps_ref, names[j].as_str());
            originals.push((names[j].clone(), v));
            j = j + 1;
            proof {
                assert(view_pairs(originals@) =~= before.push(
                    (crate_names(sv)[j - 1], version_or_empty(deps1, crate_names(sv)[j - 1])),
                ));
                assert(view_pairs(originals@) =~= originals_for(
                    deps1,
                    crate_names(sv).take(j as int),
                ));
            }
        }
        proof {
            assert(crate_names(sv).take(nn as int) =~= crate_names(sv));
        }

        proof {
            assert(sv.take(0) =~= Seq::<CrateInfoV>::empty());
        }
        let sn = survivors.len();
        let mut j: usize = 0;
        while j < sn
            invariant
                j <= sn,
                view_pairs(updates@) == updates_for(deps1, sv.take(j as int)),
            decreases sn - j,
        {
            proof {
                assert(sv[j as int] == survivors@[j as int]@);
            }
            let ghost before = view_pairs(updates@);
            let v = crate::manifest::dependency_version_or_empty(
                deps_ref,
                survivors[j].name.as_str(),
            );
            if !v.as_str().is_empty() {
                updates.push((survivors[j].name.clone(), survivors[j].version.clone()));
                proof {
                    assert(view_pairs(updates@) =~= before.push(
                        (sv[j as int].name, sv[j as int].version),
                    ));
                }
            }
            j = j + 1;
            proof {
                assert(sv.take(j as int).drop_last() =~= sv.take(j as int - 1));
                assert(sv.take(j as int).last() == sv[j as int - 1]);
                assert(view_pairs(updates@) =~= updates_for(deps1, sv.take(j as int)));
            }
        }
        proof {
            assert(sv.take(sn as int) =~= sv);
        }
    }

    // Update declared versions to the source's own versions.
    restore_versions(m, &updates);
    // Record the fresh managed state.
    store_original_versions(m, &originals);
    add_managed_patch(m, key.as_str());
    proof {
        assert(m@ == spec_add_managed(
            spec_store_originals(
                spec_restore_versions(m1, updates_for(deps1, sv)),
                originals_for(deps1, crate_names(sv)),
            ),
            key@,
        ));
    }

    // Write one path entry per surviving candidate.
    let ghost entriesv = local_entries(sv);
    let ghost m3 = m@;
    let mut additions: Vec<PatchAddition> = Vec::new();
    proof {
        assert(entriesv.skip(0) =~= entriesv);
        assert(entriesv.take(0) =~= Seq::<PatchEntryV>::empty());
        assert(view_additions(additions@) =~= additions_for(key@, entriesv.take(0)));
    }
    let sn = survivors.len();
    let mut i: usize = 0;
    while i < sn
        invariant
            i <= sn,
            sn == survivors@.len(),
            entriesv.len() == sn,
            spec_add_entries(m@, key@, entriesv.skip(i as int)) == spec_add_entries(
                m3,
                key@,
                entriesv,
            ),
            view_additions(additions@) == additions_for(key@, entriesv.take(i as int)),
        decreases sn - i,
    {
        proof {
            assert(sv[i as int] == survivors@[i as int]@);
            assert(entriesv[i as int] == PatchEntryV {
                name: sv[i as int].name,
                target: PatchTargetV::Path { path: parent_dir(sv[i as int].manifest_path) },
            });
            assert(entriesv.skip(i as int)[0] == entriesv[i as int]);
            assert(entriesv.skip(i as int).skip(1) =~= entriesv.skip(i as int + 1));
        }
        let target = PatchTarget::Path {
            path: parent_dir_of(survivors[i].manifest_path.as_str()),
        };
        proof {
            assert(target@ == entriesv[i as int].target);
        }
        let ghost add_before = view_additions(additions@);
        add_patch_section(m, key.as_str(), survivors[i].name.as_str(), target.clone());
        additions.push(
            PatchAddition { origin: key.clone(), name: survivors[i].name.clone(), target },
        );
        i = i + 1;
        proof {
            assert(view_additions(additions@) =~= add_before.push(
                PatchAdditionV {
                    origin: key@,
                    name: entriesv[i - 1].name,
                    target: entriesv[i - 1].target,
                },
            ));
            assert(entriesv.take(i as int).drop_last() =~= entriesv.take(i as int - 1));
            assert(entriesv.take(i as int).last() == entriesv[i as int - 1]);
            assert(view_additions(additions@) =~= additions_for(key@, entriesv.take(i as int)));
        }
    }
    proof {
        assert(entriesv.skip(sn as int) =~= Seq::<PatchEntryV>::empty());
        assert(entriesv.take(sn as int) =~= entriesv);
        assert(final(m)@ == spec_apply_mutation(
            m1,
            originals_for(deps1, crate_names(sv)),
            updates_for(deps1, sv),
            key@,
            entriesv,
        ));
    }
    Ok(FlowOutcome { origin: Some(key), patched: names, skipped, updates, additions })
}

/// The git flow, on a manifest the self-clean step has already passed
/// over.  A remote repository's members cannot be enumerated without
/// cloning, so a pattern is mandatory and the candidates are the declared
/// dependency names themselves; versions are never rewritten, and the
/// entries target the requested URL under the default registry key.
fn apply_git_patches(
    m: &mut Manifest,
    url: &String,
    reference: &Option<GitReference>,
    pattern: Option<&str>,
) -> (r: Result<FlowOutcome, PatchError>)
    ensures
        ({
            let deps1 = cur_deps(old(m)@);
            &&& (r is Err <==> pattern is None || matching_names(deps1, pattern->Some_0@).len()
                == 0)
            &&& match r {
                Err(e) => final(m)@ == old(m)@ && (if pattern is None {
                    e is PatternRequired
                } else {
                    match e {
                        PatchError::NoMatchingCrates { pattern: pt } => pt@ == pattern->Some_0@,
                        _ => false,
                    }
                }),
                Ok(out) => {
                    let names = matching_names(deps1, pattern->Some_0@);
                    let survivors = surviving_names(names, old(m)@.patch);
                    &&& view_strs(out.patched@) == survivors
                    &&& view_strs(out.skipped@) == skipped_names(names, old(m)@.patch)
                    &&& out.updates@.len() == 0
                    &&& if survivors.len() == 0 {
                        &&& final(m)@ == old(m)@
                        &&& out.origin is None
                        &&& out.additions@.len() == 0
                    } else {
                        &&& out.origin is Some
                        &&& out.origin->Some_0@ == "crates-io"@
                        &&& final(m)@ == spec_apply_mutation(
                            old(m)@,
                            originals_for(deps1, survivors),
                            Seq::empty(),
                            "crates-io"@,
                            git_entries(survivors, url@, crate::source::view_opt_ref(reference)),
                        )
                        &&& view_additions(out.additions@) == additions_for(
                            "crates-io"@,
                            git_entries(survivors, url@, crate::source::view_opt_ref(reference)),
                        )
                    }
                },
            }
        }),
{
    let ghost m1 = old(m)@;
    let ghost deps1 = cur_deps(old(m)@);
    let ghost refv = crate::source::view_opt_ref(reference);
    let p = match pattern {
        None => {
            return Err(PatchError::PatternRequired);
        },
        Some(p) => p,
    };

    // The candidates: every declared dependency name matching the pattern.
    let empty_deps: Vec<DepEntry> = Vec::new();
    let mut names: Vec<String> = Vec::new();
    {
        let deps_ref: &Vec<DepEntry> = match crate::manifest::get_dependencies_table(m) {
            Some(d) => d,
            None => &empty_deps,
        };
        proof {
            assert(view_deps(deps_ref@) =~= deps1);
            assert(deps1.take(0) =~= Seq::<DepEntryV>::empty());
        }
        let n = deps_ref.len();
        let mut i: usize = 0;
        while i < n
            invariant
                i <= n,
                n == deps_ref@.len(),
                deps1.len() == n,
                deps1 == view_deps(deps_ref@),
                view_strs(names@) == matching_names(deps1.take(i as int), p@),
            decreases n - i,
        {
            proof {
                assert(deps1[i as int] == deps_ref@[i as int]@);
            }
            let ghost before = view_strs(names@);
            if crate::pattern::glob_match(p, deps_ref[i].name.as_str()) {
                names.push(deps_ref[i].name.clone());
                proof {
                    assert(view_strs(names@) =~= before.push(deps1[i as int].name));
                }
            }
            i = i + 1;
            proof {
                assert(deps1.take(i as int).drop_last() =~= deps1.take(i as int - 1));
                assert(deps1.take(i as int).last() == deps1[i as int - 1]);
                assert(view_strs(names@) =~= matching_names(deps1.take(i as int), p@));
            }
        }
        proof {
            assert(deps1.take(n as int) =~= deps1);
        }
    }
    let ghost nv = view_strs(names@);

    if names.is_empty() {
        return Err(PatchError::NoMatchingCrates { pattern: String::from_str(p) });
    }

    // Skip names that already have a patch entry anywhere.
    let mut survivors: Vec<String> = Vec::new();
    let mut skipped: Vec<String> = Vec::new();
    proof {
        assert(nv.take(0) =~= Seq::<Seq<char>>::empty());
        assert(view_patch(m.patch@) == m@.patch);
    }
    let cn = names.len();
    let mut i: usize = 0;
    while i < cn
        invariant
            i <= cn,
            cn == names@.len(),
            m@ == old(m)@,
            nv == view_strs(names@),
            view_strs(survivors@) == surviving_names(nv.take(i as int), m1.patch),
            view_strs(skipped@) == skipped_names(nv.take(i as int), m1.patch),
        decreases cn - i,
    {
        proof {
            assert(nv[i as int] == names@[i as int]@);
        }
        let ghost sv_before = view_strs(survivors@);
        let ghost sk_before = view_strs(skipped@);
        if crate::store::has_existing_patch_entry(&m.patch, names[i].as_str()) {
            skipped.push(names[i].clone());
            proof {
                assert(view_strs(skipped@) =~= sk_before.push(nv[i as int]));
            }
        } else {
            survivors.push(names[i].clone());
            proof {
                assert(view_strs(survivors@) =~= sv_before.push(nv[i as int]));
            }
        }
        i = i + 1;
        proof {
            assert(nv.take(i as int).drop_last() =~= nv.take(i as int - 1));
            assert(nv.take(i as int).last() == nv[i as int - 1]);
            assert(view_strs(survivors@) =~= surviving_names(nv.take(i as int), m1.patch));
            assert(view_strs(skipped@) =~= skipped_names(nv.take(i as int), m1.patch));
        }
    }
    proof {
        assert(nv.take(cn as int) =~= nv);
    }
    let ghost sv = view_strs(survivors@);

    if survivors.is_empty() {
        return Ok(
            FlowOutcome {
                origin: None,
                patched: survivors,
                skipped,
                updates: Vec::new(),
                additions: Vec::new(),
            },
        );
    }

    // Record pre-mutation versions; git patches never rewrite versions.
    let mut originals: Vec<(String, String)> = Vec::new();
    {
        let deps_ref: &Vec<DepEntry> = match crate::manifest::get_dependencies_table(m) {
            Some(d) => d,
            None => &empty_deps,
        };
        proof {
            assert(view_deps(deps_ref@) =~= deps1);
            assert(sv.take(0) =~= Seq::<Seq<char>>::empty());
            assert(originals_for(deps1, sv.take(0)) =~= Seq::<(Seq<char>, Seq<char>)>::empty());
        }
        let nn = survivors.len();
        let mut j: usize = 0;
        while j < nn
            invariant
                j <= nn,
                nn == survivors@.len(),
                sv == view_strs(survivors@),
                view_pairs(originals@) == originals_for(deps1, sv.take(j as int)),
            decreases nn - j,
        {
            proof {
                assert(sv[j as int] == survivors@[j as int]@);
            }
            let ghost before = view_pairs(originals@);
            let v = crate::manifest::dependency_version_or_empty(deps_ref, survivors[j].as_str());
            originals.push((survivors[j].clone(), v));
            j = j + 1;
            proof {
                assert(view_pairs(originals@) =~= before.push(
                    (sv[j - 1], version_or_empty(deps1, sv[j - 1])),
                ));
                assert(view_pairs(originals@) =~= originals_for(deps1, sv.take(j as int)));
            }
        }
        proof {
            assert(sv.take(nn as int) =~= sv);
        }
    }

    // Record the fresh managed state under the default registry key.
    let key = String::from_str("crates-io");
    store_original_versions(m, &originals);
    add_managed_patch(m, key.as_str());
    proof {
        assert(spec_restore_versions(m1, Seq::empty()) == m1);
        assert(m@ == spec_add_managed(
            spec_store_originals(m1, originals_for(deps1, sv)),
            "crates-io"@,
        ));
    }

    // Write one git entry per surviving name.
    let ghost entriesv = git_entries(sv, url@, refv);
    let ghost m3 = m@;
    let mut additions: Vec<PatchAddition> = Vec::new();
    proof {
        assert(entriesv.skip(0) =~= entriesv);
        assert(entriesv.take(0) =~= Seq::<PatchEntryV>::empty());
        assert(view_additions(additions@) =~= additions_for("crates-io"@, entriesv.take(0)));
    }
    let sn = survivors.len();
    let mut i: usize = 0;
    while i < sn
        invariant
            i <= sn,
            sn == survivors@.len(),
            sv == view_strs(survivors@),
            entriesv.len() == sn,
            key@ == "crates-io"@,
            spec_add_entries(m@, "crates-io"@, entriesv.skip(i as int)) == spec_add_entries(
                m3,
                "crates-io"@,
                entriesv,
            ),
            view_additions(additions@) == additions_for("crates-io"@, entriesv.take(i as int)),
        decreases sn - i,
    {
        proof {
            assert(sv[i as int] == survivors@[i as int]@);
            assert(entriesv[i as int] == PatchEntryV {
                name: sv[i as int],
                target: PatchTargetV::Git { url: url@, reference: refv },
            });
            assert(entriesv.skip(i as int)[0] == entriesv[i as int]);
            assert(entriesv.skip(i as int).skip(1) =~= entriesv.skip(i as int + 1));
        }
        let target = PatchTarget::Git {
            url: url.clone(),
            reference: crate::source::clone_opt_ref(reference),
        };
        proof {
            assert(target@ == entriesv[i as int].target);
        }
        let ghost add_before = view_additions(additions@);
        add_patch_section(m, key.as_str(), survivors[i].as_str(), target.clone());
        additions.push(
            PatchAddition { origin: key.clone(), name: survivors[i].clone(), target },
        );
        i = i + 1;
        proof {
            assert(view_additions(additions@) =~= add_before.push(
                PatchAdditionV {
                    origin: "crates-io"@,
                    name: entriesv[i - 1].name,
                    target: entriesv[i - 1].target,
                },
            ));
            assert(entriesv.take(i as int).drop_last() =~= entriesv.take(i as int - 1));
            assert(entriesv.take(i as int).last() == entriesv[i as int - 1]);
            assert(view_additions(additions@) =~= additions_for(
                "crates-io"@,
                entriesv.take(i as int),
            ));
        }
    }
    proof {
        assert(entriesv.skip(sn as int) =~= Seq::<PatchEntryV>::empty());
        assert(entriesv.take(sn as int) =~= entriesv);
        assert(final(m)@ == spec_apply_mutation(
            m1,
            originals_for(deps1, sv),
            Seq::empty(),
            "crates-io"@,
            entriesv,
        ));
    }
    Ok(FlowOutcome { origin: Some(key), patched: survivors, skipped, updates: Vec::new(), additions })
}

// ---------------------------------------------------------------------------
// Apply
// ---------------------------------------------------------------------------

/// What a successful apply returns: the new manifest, the edits to write
/// back, the chosen origin key (none when nothing was patched), and the
/// individually reported crates: patched, skipped for a foreign patch
/// entry, and restored by the self-clean step.
#[derive(Debug)]
pub struct ApplyOutcome {
    pub manifest: Manifest,
    pub changes: ChangeSet,
    pub origin: Option<String>,
    pub patched: Vec<String>,
    pub skipped: Vec<String>,
    pub restored: Vec<(String, String)>,
}

/// Apply patches from a source to the manifest.
///
/// First the self-clean step restores whatever a previous apply recorded,
/// so repeated applications converge instead of accumulating.  Then the
/// candidate set is computed — for a local source the offered workspace
/// crates (`source_crates`), for a git source the declared dependencies
/// themselves — filtered by the pattern, intersected with the declared
/// dependencies, and stripped of crates that already have a foreign patch
/// entry.  The survivors get their versions pinned (local flow only),
/// their pre-patch state recorded, and one patch entry each under the
/// chosen origin key.
///
/// Zero surviving candidates is not an error for a local source; a git
/// source without a pattern, and a pattern matching nothing, are.  A
/// failure returns no outcome, so nothing is ever written for it.
pub fn apply_patches(
    m: Manifest,
    source: &PatchSource,
    source_crates: &Vec<CrateInfo>,
    pattern: Option<&str>,
) -> (r: Result<ApplyOutcome, PatchError>)
    ensures
        ({
            let m1 = spec_self_clean(m@);
            match source {
                PatchSource::LocalPath(sp) => {
                    let crs = view_crates(source_crates@);
                    let filtered = match pattern {
                        None => crs,
                        Some(p) => filter_crates(crs, p@),
                    };
                    let cands = intersect_crates(filtered, cur_deps(m1));
                    let survivors = surviving_crates(cands, m1.patch);
                    &&& (r is Err <==> crs.len() == 0 || (pattern is Some && filter_crates(
                        crs,
                        pattern->Some_0@,
                    ).len() == 0))
                    &&& match r {
                        Err(e) => if crs.len() == 0 {
                            match e {
                                PatchError::NotAWorkspace { path } => path@ == sp@,
                                _ => false,
                            }
                        } else {
                            match e {
                                PatchError::NoMatchingCrates { pattern: pt } => pattern is Some
                                    && pt@ == pattern->Some_0@,
                                _ => false,
                            }
                        },
                        Ok(out) => {
                            &&& view_pairs(out.restored@) == restores_of(m@)
                            &&& view_pairs(out.changes.patch_removals@) == removals_of(m@)
                            &&& view_strs(out.patched@) == crate_names(survivors)
                            &&& view_strs(out.skipped@) == skipped_crates(cands, m1.patch)
                            &&& if survivors.len() == 0 {
                                &&& out.manifest@ == m1
                                &&& out.origin is None
                                &&& out.changes.patch_additions@.len() == 0
                                &&& view_pairs(out.changes.version_sets@) == restores_of(m@)
                            } else {
                                let deps1 = cur_deps(m1);
                                let names = crate_names(survivors);
                                &&& out.origin is Some
                                &&& majority_or_default(deps1, names, out.origin->Some_0@)
                                &&& out.manifest@ == spec_apply_mutation(
                                    m1,
                                    originals_for(deps1, names),
                                    updates_for(deps1, survivors),
                                    out.origin->Some_0@,
                                    local_entries(survivors),
                                )
                                &&& view_pairs(out.changes.version_sets@) == restores_of(m@)
                                    + updates_for(deps1, survivors)
                                &&& view_additions(out.changes.patch_additions@) == additions_for(
                                    out.origin->Some_0@,
                                    local_entries(survivors),
                                )
                            }
                        },
                    }
                },
                PatchSource::Git { url, reference } => {
                    let deps1 = cur_deps(m1);
                    &&& (r is Err <==> pattern is None || matching_names(
                        deps1,
                        pattern->Some_0@,
                    ).len() == 0)
                    &&& match r {
                        Err(e) => if pattern is None {
                            e is PatternRequired
                        } else {
                            match e {
                                PatchError::NoMatchingCrates { pattern: pt } => pt@
                                    == pattern->Some_0@,
                                _ => false,
                            }
                        },
                        Ok(out) => {
                            let names = matching_names(deps1, pattern->Some_0@);
                            let survivors = surviving_names(names, m1.patch);
                            &&& view_pairs(out.restored@) == restores_of(m@)
                            &&& view_pairs(out.changes.patch_removals@) == removals_of(m@)
                            &&& view_strs(out.patched@) == survivors
                            &&& view_strs(out.skipped@) == skipped_names(names, m1.patch)
                            &&& view_pairs(out.changes.version_sets@) == restores_of(m@)
                            &&& if survivors.len() == 0 {
                                &&& out.manifest@ == m1
                                &&& out.origin is None
                                &&& out.changes.patch_additions@.len() == 0
                            } else {
                                &&& out.origin is Some
                                &&& out.origin->Some_0@ == "crates-io"@
                                &&& out.manifest@ == spec_apply_mutation(
                                    m1,
                                    originals_for(deps1, survivors),
                                    Seq::empty(),
                                    "crates-io"@,
                                    git_entries(
                                        survivors,
                                        url@,
                                        crate::source::view_opt_ref(reference),
                                    ),
                                )
                                &&& view_additions(out.changes.patch_additions@) == additions_for(
                                    "crates-io"@,
                                    git_entries(
                                        survivors,
                                        url@,
                                        crate::source::view_opt_ref(reference),
                                    ),
                                )
                            }
                        },
                    }
                },
            }
        }),
{
    let mut m = m;
    let ghost m0 = m@;

    // The removals the self-clean step will make, read before it runs.
    let managed0 = get_managed_patches(&m);
    let originals0 = get_original_versions(&m);
    let removals: Vec<(String, String)> = if !managed0.is_empty() && !m.patch.is_empty() {
        cross_removals(&managed0, &originals0)
    } else {
        let r: Vec<(String, String)> = Vec::new();
        proof {
            assert(view_pairs(r@) =~= removals_of(m0));
        }
        r
    };

    match source {
        PatchSource::LocalPath(sp) => {
            if source_crates.is_empty() {
                return Err(PatchError::NotAWorkspace { path: sp.as_path().clone() });
            }
            let restored = self_clean(&mut m);
            match apply_local_path_patches(&mut m, source_crates, pattern) {
                Ok(parts) => {
                    let mut version_sets = crate::manifest::clone_pairs(&restored);
                    extend_pairs(&mut version_sets, &parts.updates);
                    proof {
                        if view_pairs(parts.updates@).len() == 0 {
                            assert(view_pairs(version_sets@) =~= restores_of(m0));
                        }
                    }
                    Ok(
                        ApplyOutcome {
                            manifest: m,
                            changes: ChangeSet {
                                version_sets,
                                patch_removals: removals,
                                patch_additions: parts.additions,
                            },
                            origin: parts.origin,
                            patched: parts.patched,
                            skipped: parts.skipped,
                            restored,
                        },
                    )
                },
                Err(e) => Err(e),
            }
        },
        PatchSource::Git { url, reference } => {
            let restored = self_clean(&mut m);
            match apply_git_patches(&mut m, url, reference, pattern) {
                Ok(parts) => {
                    let version_sets = crate::manifest::clone_pairs(&restored);
                    Ok(
                        ApplyOutcome {
                            manifest: m,
                            changes: ChangeSet {
                                version_sets,
                                patch_removals: removals,
                                patch_additions: parts.additions,
                            },
                            origin: parts.origin,
                            patched: parts.patched,
                            skipped: parts.skipped,
                            restored,
                        },
                    )
                },
                Err(e) => Err(e),
            }
        },
    }
}

// ---------------------------------------------------------------------------
// Remove
// ---------------------------------------------------------------------------

/// What a successful removal returns: the restored manifest, the edits to
/// write back, and the versions that were restored.
#[derive(Debug)]
pub struct RemoveOutcome {
    pub manifest: Manifest,
    pub changes: ChangeSet,
    pub restored: Vec<(String, String)>,
}

/// Remove every managed patch from the manifest: restore each recorded
/// non-empty version, strip exactly the recorded crates from their managed
/// origin tables (pruning tables left empty), and clear the metadata
/// block.  Fails with `NoPatchesFound` when the manifest holds no managed
/// state or no patch section; a failure returns no outcome, so nothing is
/// written.
pub fn remove_patches(m: Manifest) -> (r: Result<RemoveOutcome, PatchError>)
    ensures
        r is Ok <==> managed_of(m@).len() > 0 && m@.patch.len() > 0,
        match r {
            Ok(out) => {
                &&& out.manifest@ == spec_remove_managed(
                    spec_restore_versions(m@, nonempty_pairs(originals_of(m@))),
                )
                &&& view_pairs(out.restored@) == nonempty_pairs(originals_of(m@))
                &&& view_pairs(out.changes.version_sets@) == nonempty_pairs(originals_of(m@))
                &&& view_pairs(out.changes.patch_removals@) == cross_pairs(
                    managed_of(m@),
                    pair_keys(originals_of(m@)),
                )
                &&& out.changes.patch_additions@.len() == 0
            },
            Err(e) => e is NoPatchesFound,
        },
{
    let mut m = m;
    let ghost m0 = m@;
    let managed = get_managed_patches(&m);
    let originals = get_original_versions(&m);
    let to_restore = nonempty_of(&originals);
    let removals = cross_removals(&managed, &originals);
    restore_versions(&mut m, &to_restore);
    proof {
        lemma_restore_preserves(m0, nonempty_pairs(originals_of(m0)));
    }
    match remove_managed_patches(&mut m) {
        Ok(_) => {
            let version_sets = crate::manifest::clone_pairs(&to_restore);
            Ok(
                RemoveOutcome {
                    manifest: m,
                    changes: ChangeSet {
                        version_sets,
                        patch_removals: removals,
                        patch_additions: Vec::new(),
                    },
                    restored: to_restore,
                },
            )
        },
        Err(e) => Err(e),
    }
}

} // verus!
