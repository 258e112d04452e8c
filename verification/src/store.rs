//! The patch metadata store and the patch section operations: reading and
//! writing the private metadata block (recorded original versions, managed
//! origin keys) and editing `[patch.<origin>]` tables.

use vstd::prelude::*;

use crate::error::PatchError;
use crate::manifest::{
    clone_pairs, clone_strs, view_opt_deps, view_opt_state, view_pairs, view_patch,
    view_patch_entries, view_strs, ManagedState, ManagedStateV, Manifest, ManifestV, OriginTable,
    OriginTableV, PatchEntry, PatchEntryV, PatchTarget,
};
use crate::strutil::{lex_lt, str_eq, str_lt};

verus! {

// ---------------------------------------------------------------------------
// Membership helpers
// ---------------------------------------------------------------------------

pub open spec fn contains_str(ss: Seq<Seq<char>>, x: Seq<char>) -> bool {
    exists|i: int| 0 <= i < ss.len() && ss[i] == x
}

/// Decide whether `x` occurs in `v`.
pub fn contains_str_vec(v: &Vec<String>, x: &str) -> (r: bool)
    ensures
        r == contains_str(view_strs(v@), x@),
{
    let n = v.len();
    let mut i: usize = 0;
    while i < n
        invariant
            i <= n,
            n == v@.len(),
            forall|j: int| 0 <= j < i ==> v@[j]@ != x@,
        decreases n - i,
    {
        if str_eq(v[i].as_str(), x) {
            proof {
                assert(view_strs(v@)[i as int] == x@);
            }
            return true;
        }
        i = i + 1;
    }
    proof {
        assert forall|j: int| 0 <= j < view_strs(v@).len() implies view_strs(v@)[j] != x@ by {
            assert(view_strs(v@)[j] == v@[j]@);
        }
    }
    false
}

// ---------------------------------------------------------------------------
// Recorded version pairs
// ---------------------------------------------------------------------------

pub open spec fn pair_keys(ps: Seq<(Seq<char>, Seq<char>)>) -> Seq<Seq<char>> {
    ps.map_values(|p: (Seq<char>, Seq<char>)| p.0)
}

/// First recorded version for key `k`, if any.
pub open spec fn pair_lookup(ps: Seq<(Seq<char>, Seq<char>)>, k: Seq<char>) -> Option<Seq<char>>
    decreases ps.len(),
{
    if ps.len() == 0 {
        None
    } else if ps[0].0 == k {
        Some(ps[0].1)
    } else {
        pair_lookup(ps.skip(1), k)
    }
}

// ---------------------------------------------------------------------------
// Sorting by crate name
// ---------------------------------------------------------------------------

/// Insert `p` in front of the first element whose key is greater.
pub open spec fn insert_pair(
    s: Seq<(Seq<char>, Seq<char>)>,
    p: (Seq<char>, Seq<char>),
) -> Seq<(Seq<char>, Seq<char>)>
    decreases s.len(),
{
    if s.len() == 0 {
        seq![p]
    } else if lex_lt(p.0, s[0].0) {
        seq![p] + s
    } else {
        seq![s[0]] + insert_pair(s.skip(1), p)
    }
}

/// Insertion sort of recorded versions by crate name, for deterministic
/// output regardless of insertion order.
pub open spec fn sort_pairs(s: Seq<(Seq<char>, Seq<char>)>) -> Seq<(Seq<char>, Seq<char>)>
    decreases s.len(),
{
    if s.len() == 0 {
        Seq::empty()
    } else {
        insert_pair(sort_pairs(s.drop_last()), s.last())
    }
}

/// Where `insert_pair` puts the new pair: before the first strictly
/// greater key, after everything else.
pub proof fn lemma_insert_pair_at(s: Seq<(Seq<char>, Seq<char>)>, p: (Seq<char>, Seq<char>), k: int)
    requires
        0 <= k <= s.len(),
        forall|j: int| 0 <= j < k ==> !lex_lt(p.0, s[j].0),
        k < s.len() ==> lex_lt(p.0, s[k].0),
    ensures
        insert_pair(s, p) == s.take(k) + seq![p] + s.skip(k),
    decreases s.len(),
{
    if s.len() == 0 {
        assert(insert_pair(s, p) =~= s.take(k) + seq![p] + s.skip(k));
    } else if k == 0 {
        assert(insert_pair(s, p) == seq![p] + s);
        assert(s.take(0) + seq![p] + s.skip(0) =~= seq![p] + s);
    } else {
        assert(!lex_lt(p.0, s[0].0));
        lemma_insert_pair_at(s.skip(1), p, k - 1);
        assert(seq![s[0]] + (s.skip(1).take(k - 1) + seq![p] + s.skip(1).skip(k - 1)) =~= s.take(k)
            + seq![p] + s.skip(k));
    }
}

/// The position of the first element whose key is strictly greater than
/// `key`, or the length when there is none.
fn find_insert_pos(v: &Vec<(String, String)>, key: &str) -> (k: usize)
    ensures
        k <= v@.len(),
        forall|j: int| 0 <= j < k ==> !lex_lt(key@, v@[j].0@),
        k < v@.len() ==> lex_lt(key@, v@[k as int].0@),
{
    let n = v.len();
    let mut k: usize = 0;
    while k < n
        invariant
            k <= n,
            n == v@.len(),
            forall|j: int| 0 <= j < k ==> !lex_lt(key@, v@[j].0@),
        decreases n - k,
    {
        if str_lt(key, v[k].0.as_str()) {
            return k;
        }
        k = k + 1;
    }
    k
}

/// Insert one pair into a vector kept sorted by key.
fn insert_sorted(v: &mut Vec<(String, String)>, p: (String, String))
    ensures
        view_pairs(final(v)@) == insert_pair(view_pairs(old(v)@), (p.0@, p.1@)),
{
    let ghost pv = view_pairs(old(v)@);
    let ghost pp = (p.0@, p.1@);
    let n = v.len();
    let k = find_insert_pos(v, p.0.as_str());
    proof {
        assert forall|j: int| 0 <= j < k implies !lex_lt(pp.0, pv[j].0) by {
            assert(pv[j] == (v@[j].0@, v@[j].1@));
        }
        if k < n {
            assert(pv[k as int] == (v@[k as int].0@, v@[k as int].1@));
        }
        lemma_insert_pair_at(pv, pp, k as int);
    }
    v.insert(k, p);
    proof {
        assert(view_pairs(v@) =~= pv.take(k as int) + seq![pp] + pv.skip(k as int));
    }
}

/// Sort recorded versions by crate name.
fn sorted_pairs_of(v: &Vec<(String, String)>) -> (r: Vec<(String, String)>)
    ensures
        view_pairs(r@) == sort_pairs(view_pairs(v@)),
{
    let ghost pv = view_pairs(v@);
    let mut r: Vec<(String, String)> = Vec::new();
    let n = v.len();
    let mut i: usize = 0;
    proof {
        assert(pv.take(0) =~= Seq::<(Seq<char>, Seq<char>)>::empty());
    }
    while i < n
        invariant
            i <= n,
            n == v@.len(),
            pv == view_pairs(v@),
            pv.len() == n,
            view_pairs(r@) == sort_pairs(pv.take(i as int)),
        decreases n - i,
    {
        insert_sorted(&mut r, (v[i].0.clone(), v[i].1.clone()));
        i = i + 1;
        proof {
            assert(pv.take(i as int).drop_last() =~= pv.take(i as int - 1));
            assert(pv.take(i as int).last() == pv[i as int - 1]);
            assert(pv[i as int - 1] == (v@[i as int - 1].0@, v@[i as int - 1].1@));
        }
    }
    proof {
        assert(pv.take(n as int) =~= pv);
    }
    r
}

// ---------------------------------------------------------------------------
// The metadata block
// ---------------------------------------------------------------------------

/// The managed state the manifest holds, reading the workspace metadata
/// section first, then the package one; absence is an empty state, never
/// an error.
pub open spec fn loaded_state(m: ManifestV) -> Option<ManagedStateV> {
    if m.workspace_metadata is Some {
        m.workspace_metadata
    } else {
        m.package_metadata
    }
}

pub open spec fn originals_of(m: ManifestV) -> Seq<(Seq<char>, Seq<char>)> {
    match loaded_state(m) {
        Some(st) => st.original_versions,
        None => Seq::empty(),
    }
}

pub open spec fn managed_of(m: ManifestV) -> Seq<Seq<char>> {
    match loaded_state(m) {
        Some(st) => st.managed_patches,
        None => Seq::empty(),
    }
}

/// Recorded original versions, or empty when no metadata block exists.
pub fn get_original_versions(m: &Manifest) -> (r: Vec<(String, String)>)
    ensures
        view_pairs(r@) == originals_of(m@),
{
    match &m.workspace_metadata {
        Some(st) => clone_pairs(&st.original_versions),
        None => match &m.package_metadata {
            Some(st) => clone_pairs(&st.original_versions),
            None => Vec::new(),
        },
    }
}

/// Managed origin keys, or empty when no metadata block exists.
pub fn get_managed_patches(m: &Manifest) -> (r: Vec<String>)
    ensures
        view_strs(r@) == managed_of(m@),
{
    match &m.workspace_metadata {
        Some(st) => clone_strs(&st.managed_patches),
        None => match &m.package_metadata {
            Some(st) => clone_strs(&st.managed_patches),
            None => Vec::new(),
        },
    }
}

/// The metadata slot written to: the workspace one when the document is a
/// workspace, else the package one.  The recorded versions are replaced
/// wholesale, sorted by crate name; the managed origin list is kept.
pub open spec fn spec_store_originals(
    m: ManifestV,
    pairs: Seq<(Seq<char>, Seq<char>)>,
) -> ManifestV {
    let sorted = sort_pairs(pairs);
    if m.has_workspace {
        ManifestV {
            workspace_metadata: Some(
                ManagedStateV {
                    original_versions: sorted,
                    managed_patches: match m.workspace_metadata {
                        Some(st) => st.managed_patches,
                        None => Seq::empty(),
                    },
                },
            ),
            ..m
        }
    } else {
        ManifestV {
            package_metadata: Some(
                ManagedStateV {
                    original_versions: sorted,
                    managed_patches: match m.package_metadata {
                        Some(st) => st.managed_patches,
                        None => Seq::empty(),
                    },
                },
            ),
            ..m
        }
    }
}

/// Record the pre-patch versions in the metadata block, sorted by crate
/// name for deterministic output.
pub fn store_original_versions(m: &mut Manifest, versions: &Vec<(String, String)>)
    ensures
        final(m)@ == spec_store_originals(old(m)@, view_pairs(versions@)),
{
    let sorted = sorted_pairs_of(versions);
    if m.has_workspace {
        match &mut m.workspace_metadata {
            Some(st) => {
                st.original_versions = sorted;
            },
            None => {
                m.workspace_metadata = Some(
                    ManagedState { original_versions: sorted, managed_patches: Vec::new() },
                );
            },
        }
    } else {
        match &mut m.package_metadata {
            Some(st) => {
                st.original_versions = sorted;
            },
            None => {
                m.package_metadata = Some(
                    ManagedState { original_versions: sorted, managed_patches: Vec::new() },
                );
            },
        }
    }
    proof {
        assert(final(m)@ =~= spec_store_originals(old(m)@, view_pairs(versions@)));
    }
}

/// The managed origin list after adding `key`: unchanged when already
/// present, appended otherwise; a missing metadata block is created.
pub open spec fn spec_add_managed(m: ManifestV, key: Seq<char>) -> ManifestV {
    if m.has_workspace {
        ManifestV { workspace_metadata: Some(add_managed_state(m.workspace_metadata, key)), ..m }
    } else {
        ManifestV { package_metadata: Some(add_managed_state(m.package_metadata, key)), ..m }
    }
}

pub open spec fn add_managed_state(slot: Option<ManagedStateV>, key: Seq<char>) -> ManagedStateV {
    match slot {
        Some(st) => ManagedStateV {
            original_versions: st.original_versions,
            managed_patches: if contains_str(st.managed_patches, key) {
                st.managed_patches
            } else {
                st.managed_patches.push(key)
            },
        },
        None => ManagedStateV {
            original_versions: Seq::empty(),
            managed_patches: seq![key],
        },
    }
}

/// Add an origin key to the managed list, keeping insertion order and
/// suppressing duplicates.
pub fn add_managed_patch(m: &mut Manifest, patch_key: &str)
    ensures
        final(m)@ == spec_add_managed(old(m)@, patch_key@),
{
    let key = String::from_str(patch_key);
    if m.has_workspace {
        match &mut m.workspace_metadata {
            Some(st) => {
                if !contains_str_vec(&st.managed_patches, patch_key) {
                    st.managed_patches.push(key);
                }
            },
            None => {
                let mut managed: Vec<String> = Vec::new();
                managed.push(key);
                m.workspace_metadata = Some(
                    ManagedState { original_versions: Vec::new(), managed_patches: managed },
                );
            },
        }
    } else {
        match &mut m.package_metadata {
            Some(st) => {
                if !contains_str_vec(&st.managed_patches, patch_key) {
                    st.managed_patches.push(key);
                }
            },
            None => {
                let mut managed: Vec<String> = Vec::new();
                managed.push(key);
                m.package_metadata = Some(
                    ManagedState { original_versions: Vec::new(), managed_patches: managed },
                );
            },
        }
    }
    proof {
        assert(final(m)@ =~= spec_add_managed(old(m)@, patch_key@));
    }
}

/// Both metadata slots cleared.
pub open spec fn spec_clear_metadata(m: ManifestV) -> ManifestV {
    ManifestV { workspace_metadata: None, package_metadata: None, ..m }
}

/// Remove this tool's metadata block wherever it sits.
fn clear_metadata(m: &mut Manifest)
    ensures
        final(m)@ == spec_clear_metadata(old(m)@),
{
    m.workspace_metadata = None;
    m.package_metadata = None;
    proof {
        assert(final(m)@ =~= spec_clear_metadata(old(m)@));
    }
}


// ---------------------------------------------------------------------------
// The patch section
// ---------------------------------------------------------------------------

pub open spec fn has_entry(es: Seq<PatchEntryV>, name: Seq<char>) -> bool {
    exists|i: int| 0 <= i < es.len() && es[i].name == name
}

pub open spec fn has_origin(ts: Seq<OriginTableV>, key: Seq<char>) -> bool {
    exists|i: int| 0 <= i < ts.len() && ts[i].origin == key
}

/// Whether any origin table holds an entry for `name`.
pub open spec fn existing_patched(ts: Seq<OriginTableV>, name: Seq<char>) -> bool {
    exists|i: int| 0 <= i < ts.len() && has_entry(ts[i].entries, name)
}

/// Decide `existing_patched` on a patch section.
pub fn has_existing_patch_entry(patch: &Vec<OriginTable>, name: &str) -> (r: bool)
    ensures
        r == existing_patched(view_patch(patch@), name@),
{
    let ghost tv = view_patch(patch@);
    let n = patch.len();
    let mut i: usize = 0;
    while i < n
        invariant
            i <= n,
            forall|j: int| 0 <= j < i ==> !has_entry(tv[j].entries, name@),
        decreases n - i,
    {
        let es = &patch[i].entries;
        let en = es.len();
        let mut k: usize = 0;
        while k < en
            invariant
                k <= en,
                forall|j: int| 0 <= j < k ==> es@[j]@.name != name@,
            decreases en - k,
        {
            if str_eq(es[k].name.as_str(), name) {
                proof {
                    assert(tv[i as int].entries[k as int] == es@[k as int]@);
                    assert(has_entry(tv[i as int].entries, name@));
                }
                return true;
            }
            k = k + 1;
        }
        proof {
            let tentries = tv[i as int].entries;
            assert forall|j: int| 0 <= j < tentries.len() implies tentries[j].name != name@ by {
                assert(tentries[j] == es@[j]@);
            }
        }
        i = i + 1;
    }
    false
}

/// `es` with `e` written over every entry of the same name, or appended
/// when none exists; the position of an existing entry is kept.
pub open spec fn upsert_entry(es: Seq<PatchEntryV>, e: PatchEntryV) -> Seq<PatchEntryV> {
    if has_entry(es, e.name) {
        es.map_values(
            |x: PatchEntryV|
                if x.name == e.name {
                    e
                } else {
                    x
                },
        )
    } else {
        es.push(e)
    }
}

/// The patch section after inserting `e` under origin `key`: the existing
/// origin table is extended in place, other tables and other entries are
/// untouched; a missing origin table is appended.
pub open spec fn spec_add_patch(ts: Seq<OriginTableV>, key: Seq<char>, e: PatchEntryV) -> Seq<
    OriginTableV,
> {
    if has_origin(ts, key) {
        ts.map_values(
            |t: OriginTableV|
                if t.origin == key {
                    OriginTableV { origin: t.origin, entries: upsert_entry(t.entries, e) }
                } else {
                    t
                },
        )
    } else {
        ts.push(OriginTableV { origin: key, entries: seq![e] })
    }
}

/// The whole effect of `add_patch_section` on a manifest.
pub open spec fn spec_add_patch_section(m: ManifestV, key: Seq<char>, e: PatchEntryV) -> ManifestV {
    ManifestV { patch: spec_add_patch(m.patch, key, e), ..m }
}

/// Write one entry into `es` per `upsert_entry`.
fn upsert_entry_exec(es: &mut Vec<PatchEntry>, crate_name: &str, target: PatchTarget)
    ensures
        view_patch_entries(final(es)@) == upsert_entry(
            view_patch_entries(old(es)@),
            PatchEntryV { name: crate_name@, target: target@ },
        ),
{
    let ghost ev = view_patch_entries(old(es)@);
    let ghost e = PatchEntryV { name: crate_name@, target: target@ };
    let mut found = false;
    let n = es.len();
    let mut i: usize = 0;
    while i < n
        invariant
            i <= n,
            es@.len() == n,
            found == (exists|j: int| 0 <= j < i && ev[j].name == e.name),
            forall|j: int|
                0 <= j < i ==> es@[j]@ == (if ev[j].name == e.name {
                    e
                } else {
                    ev[j]
                }),
            forall|j: int| i <= j < n ==> es@[j]@ == ev[j],
        decreases n - i,
    {
        proof {
            assert(es@[i as int]@ == ev[i as int]);
        }
        if str_eq(es[i].name.as_str(), crate_name) {
            let entry = PatchEntry { name: String::from_str(crate_name), target: target.clone() };
            proof {
                assert(entry@ == e);
                assert(0 <= i < i + 1 && ev[i as int].name == e.name);
            }
            es[i] = entry;
            found = true;
        }
        i = i + 1;
    }
    if found {
        proof {
            assert(has_entry(ev, e.name));
            assert(view_patch_entries(es@) =~= upsert_entry(ev, e));
        }
    } else {
        let entry = PatchEntry { name: String::from_str(crate_name), target };
        es.push(entry);
        proof {
            assert(!has_entry(ev, e.name));
            assert(view_patch_entries(es@) =~= ev.push(e));
        }
    }
}

/// Add or update one patch entry under `[patch.<patch_key>]`, creating the
/// origin table if needed and preserving every other entry.
pub fn add_patch_section(m: &mut Manifest, patch_key: &str, crate_name: &str, target: PatchTarget)
    ensures
        final(m)@ == spec_add_patch_section(
            old(m)@,
            patch_key@,
            PatchEntryV { name: crate_name@, target: target@ },
        ),
{
    let ghost tv = old(m)@.patch;
    let ghost e = PatchEntryV { name: crate_name@, target: target@ };
    let mut origin_exists = false;
    let n = m.patch.len();
    let mut i: usize = 0;
    while i < n
        invariant
            i <= n,
            m.patch@.len() == n,
            m@ == old(m)@,
            origin_exists == (exists|j: int| 0 <= j < i && tv[j].origin == patch_key@),
        decreases n - i,
    {
        proof {
            assert(m.patch@[i as int]@ == tv[i as int]);
        }
        if str_eq(m.patch[i].origin.as_str(), patch_key) {
            proof {
                assert(0 <= i < i + 1 && tv[i as int].origin == patch_key@);
            }
            origin_exists = true;
        }
        i = i + 1;
    }
    if origin_exists {
        let mut i: usize = 0;
        while i < n
            invariant
                i <= n,
                m.patch@.len() == n,
                m.has_workspace == old(m).has_workspace,
                view_opt_deps(&m.workspace_deps) == view_opt_deps(&old(m).workspace_deps),
                view_opt_deps(&m.package_deps) == view_opt_deps(&old(m).package_deps),
                view_opt_state(&m.workspace_metadata) == view_opt_state(&old(m).workspace_metadata),
                view_opt_state(&m.package_metadata) == view_opt_state(&old(m).package_metadata),
                forall|j: int|
                    0 <= j < i ==> m.patch@[j]@ == (if tv[j].origin == patch_key@ {
                        OriginTableV {
                            origin: tv[j].origin,
                            entries: upsert_entry(tv[j].entries, e),
                        }
                    } else {
                        tv[j]
                    }),
                forall|j: int| i <= j < n ==> m.patch@[j]@ == tv[j],
            decreases n - i,
        {
            proof {
                assert(m.patch@[i as int]@ == tv[i as int]);
            }
            if str_eq(m.patch[i].origin.as_str(), patch_key) {
                let t = &mut m.patch[i];
                upsert_entry_exec(&mut t.entries, crate_name, target.clone());
            }
            i = i + 1;
        }
        proof {
            assert(has_origin(tv, patch_key@));
            assert(view_patch(m.patch@) =~= spec_add_patch(tv, patch_key@, e));
            assert(final(m)@ =~= spec_add_patch_section(old(m)@, patch_key@, e));
        }
    } else {
        let entry = PatchEntry { name: String::from_str(crate_name), target };
        let mut entries: Vec<PatchEntry> = Vec::new();
        entries.push(entry);
        let table = OriginTable { origin: String::from_str(patch_key), entries };
        proof {
            assert(table@.entries =~= seq![e]);
        }
        m.patch.push(table);
        proof {
            assert(!has_origin(tv, patch_key@));
            assert(view_patch(m.patch@) =~= tv.push(
                OriginTableV { origin: patch_key@, entries: seq![e] },
            ));
            assert(final(m)@ =~= spec_add_patch_section(old(m)@, patch_key@, e));
        }
    }
}

// ---------------------------------------------------------------------------
// Removing managed entries
// ---------------------------------------------------------------------------

/// A table's entries with every crate in `names` removed.
pub open spec fn strip_entries(es: Seq<PatchEntryV>, names: Seq<Seq<char>>) -> Seq<PatchEntryV>
    decreases es.len(),
{
    if es.len() == 0 {
        Seq::empty()
    } else {
        let rest = strip_entries(es.drop_last(), names);
        if contains_str(names, es.last().name) {
            rest
        } else {
            rest.push(es.last())
        }
    }
}

/// The patch section after removal: each managed origin table loses
/// exactly the crates in `names` and is dropped once empty; every other
/// table is untouched, even an empty one.
pub open spec fn strip_tables(
    ts: Seq<OriginTableV>,
    managed: Seq<Seq<char>>,
    names: Seq<Seq<char>>,
) -> Seq<OriginTableV>
    decreases ts.len(),
{
    if ts.len() == 0 {
        Seq::empty()
    } else {
        let rest = strip_tables(ts.drop_last(), managed, names);
        let t = ts.last();
        if contains_str(managed, t.origin) {
            let stripped = OriginTableV { origin: t.origin, entries: strip_entries(t.entries, names) };
            if stripped.entries.len() > 0 {
                rest.push(stripped)
            } else {
                rest
            }
        } else {
            rest.push(t)
        }
    }
}

/// The whole effect of a successful `remove_managed_patches`.
pub open spec fn spec_remove_managed(m: ManifestV) -> ManifestV {
    ManifestV {
        patch: strip_tables(m.patch, managed_of(m), pair_keys(originals_of(m))),
        workspace_metadata: None,
        package_metadata: None,
        ..m
    }
}

/// Decide whether `name` is a recorded original-version key.
fn is_recorded_name(originals: &Vec<(String, String)>, name: &str) -> (r: bool)
    ensures
        r == contains_str(pair_keys(view_pairs(originals@)), name@),
{
    let ghost ks = pair_keys(view_pairs(originals@));
    let n = originals.len();
    let mut i: usize = 0;
    while i < n
        invariant
            i <= n,
            forall|j: int| 0 <= j < i ==> ks[j] != name@,
        decreases n - i,
    {
        proof {
            assert(ks[i as int] == originals@[i as int].0@);
        }
        if str_eq(originals[i].0.as_str(), name) {
            return true;
        }
        i = i + 1;
    }
    false
}

/// One table's entries with every recorded crate removed.
fn strip_entries_exec(es: &Vec<PatchEntry>, originals: &Vec<(String, String)>) -> (r: Vec<
    PatchEntry,
>)
    ensures
        view_patch_entries(r@) == strip_entries(
            view_patch_entries(es@),
            pair_keys(view_pairs(originals@)),
        ),
{
    let ghost ev = view_patch_entries(es@);
    let ghost names = pair_keys(view_pairs(originals@));
    let mut r: Vec<PatchEntry> = Vec::new();
    let n = es.len();
    let mut i: usize = 0;
    proof {
        assert(ev.take(0) =~= Seq::<PatchEntryV>::empty());
    }
    while i < n
        invariant
            i <= n,
            view_patch_entries(r@) == strip_entries(ev.take(i as int), names),
        decreases n - i,
    {
        proof {
            assert(ev[i as int] == es@[i as int]@);
        }
        let keep = !is_recorded_name(originals, es[i].name.as_str());
        if keep {
            r.push(es[i].clone());
        }
        i = i + 1;
        proof {
            assert(ev.take(i as int).drop_last() =~= ev.take(i as int - 1));
            assert(ev.take(i as int).last() == ev[i as int - 1]);
            if keep {
                assert(view_patch_entries(r@) =~= strip_entries(ev.take(i as int - 1), names).push(
                    ev[i as int - 1],
                ));
            }
            assert(view_patch_entries(r@) =~= strip_entries(ev.take(i as int), names));
        }
    }
    proof {
        assert(ev.take(n as int) =~= ev);
    }
    r
}

/// Remove every managed patch entry, guided by the metadata block: each
/// managed origin table loses exactly the recorded crates and is pruned
/// once empty, and the metadata block is cleared.  Fails with
/// `NoPatchesFound` when no managed state or no patch section exists, and
/// then leaves the manifest untouched.
pub fn remove_managed_patches(m: &mut Manifest) -> (r: Result<bool, PatchError>)
    ensures
        r is Ok <==> managed_of(old(m)@).len() > 0 && old(m)@.patch.len() > 0,
        match r {
            Ok(b) => b == true && final(m)@ == spec_remove_managed(old(m)@),
            Err(e) => e is NoPatchesFound && final(m)@ == old(m)@,
        },
{
    let managed = get_managed_patches(m);
    if managed.is_empty() {
        return Err(PatchError::NoPatchesFound);
    }
    if m.patch.is_empty() {
        return Err(PatchError::NoPatchesFound);
    }
    let originals = get_original_versions(m);

    let ghost tv = old(m)@.patch;
    let ghost managedv = managed_of(old(m)@);
    let ghost names = pair_keys(originals_of(old(m)@));

    let mut newpatch: Vec<OriginTable> = Vec::new();
    let n = m.patch.len();
    let mut i: usize = 0;
    proof {
        assert(tv.take(0) =~= Seq::<OriginTableV>::empty());
    }
    while i < n
        invariant
            i <= n,
            m@ == old(m)@,
            m.patch@.len() == n,
            view_patch(newpatch@) == strip_tables(tv.take(i as int), managedv, names),
        decreases n - i,
    {
        proof {
            assert(tv[i as int] == m.patch@[i as int]@);
        }
        let ghost before = view_patch(newpatch@);
        if contains_str_vec(&managed, m.patch[i].origin.as_str()) {
            let es = strip_entries_exec(&m.patch[i].entries, &originals);
            if es.len() > 0 {
                let t = OriginTable { origin: m.patch[i].origin.clone(), entries: es };
                newpatch.push(t);
                proof {
                    assert(view_patch(newpatch@) =~= before.push(
                        OriginTableV {
                            origin: tv[i as int].origin,
                            entries: strip_entries(tv[i as int].entries, names),
                        },
                    ));
                }
            }
        } else {
            let t = m.patch[i].clone();
            newpatch.push(t);
            proof {
                assert(view_patch(newpatch@) =~= before.push(tv[i as int]));
            }
        }
        i = i + 1;
        proof {
            assert(tv.take(i as int).drop_last() =~= tv.take(i as int - 1));
            assert(tv.take(i as int).last() == tv[i as int - 1]);
            assert(view_patch(newpatch@) =~= strip_tables(tv.take(i as int), managedv, names));
        }
    }
    m.patch = newpatch;
    clear_metadata(m);
    proof {
        assert(tv.take(n as int) =~= tv);
        assert(final(m)@ =~= spec_remove_managed(old(m)@));
    }
    Ok(true)
}

} // verus!
