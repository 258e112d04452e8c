//! The laws of the patch state manager, proved over the same specification
//! functions its operations are contracted against: applying is reversible
//! and convergent, and entries this tool does not own are never disturbed.

use vstd::prelude::*;

use crate::manifest::{
    cur_deps, decl_version, deps_table_of, lookup_dep, set_decl_version, set_version_in,
    spec_update_version, version_or_empty, with_deps, DepEntryV, ManifestV, OriginTableV,
    PatchEntryV,
};
use crate::cargo_ops::{filter_crates, CrateInfoV};
use crate::patch::{
    crate_names, intersect_crates, local_entries, nonempty_pairs, originals_for,
    spec_apply_mutation, spec_restore_versions, surviving_crates, updates_for,
};
use crate::store::{
    existing_patched, insert_pair, managed_of, originals_of, pair_keys, pair_lookup, sort_pairs,
};
use crate::strutil::lex_lt;

verus! {

// ---------------------------------------------------------------------------
// Association lookups
// ---------------------------------------------------------------------------

pub open spec fn has_pair_key(ps: Seq<(Seq<char>, Seq<char>)>, k: Seq<char>) -> bool {
    pair_lookup(ps, k) is Some
}

/// No two elements equal: used of crate names and origin keys.
pub open spec fn distinct_strs(ss: Seq<Seq<char>>) -> bool {
    forall|i: int, j: int| 0 <= i < j < ss.len() ==> ss[i] != ss[j]
}

/// A key is found exactly when some pair carries it.
pub proof fn lemma_pair_lookup_exists(ps: Seq<(Seq<char>, Seq<char>)>, k: Seq<char>)
    ensures
        has_pair_key(ps, k) <==> exists|i: int| 0 <= i < ps.len() && ps[i].0 == k,
    decreases ps.len(),
{
    if ps.len() > 0 {
        lemma_pair_lookup_exists(ps.skip(1), k);
        if ps[0].0 == k {
            assert(0 <= 0 < ps.len() && ps[0].0 == k);
        } else {
            if has_pair_key(ps, k) {
                let i = choose|i: int| 0 <= i < ps.skip(1).len() && ps.skip(1)[i].0 == k;
                assert(ps[i + 1].0 == k);
            }
            if exists|i: int| 0 <= i < ps.len() && ps[i].0 == k {
                let i = choose|i: int| 0 <= i < ps.len() && ps[i].0 == k;
                assert(ps.skip(1)[i - 1].0 == k);
            }
        }
    }
}

/// Looking up past a final element.
pub proof fn lemma_pair_lookup_push(
    ps: Seq<(Seq<char>, Seq<char>)>,
    p: (Seq<char>, Seq<char>),
    k: Seq<char>,
)
    ensures
        pair_lookup(ps.push(p), k) == (if has_pair_key(ps, k) {
            pair_lookup(ps, k)
        } else if k == p.0 {
            Some(p.1)
        } else {
            None
        }),
    decreases ps.len(),
{
    if ps.len() == 0 {
        assert(ps.push(p)[0] == p);
        assert(ps.push(p).skip(1) =~= Seq::<(Seq<char>, Seq<char>)>::empty());
        assert(pair_lookup(Seq::<(Seq<char>, Seq<char>)>::empty(), k) is None);
    } else {
        assert(ps.push(p)[0] == ps[0]);
        assert(ps.push(p).skip(1) =~= ps.skip(1).push(p));
        lemma_pair_lookup_push(ps.skip(1), p, k);
    }
    assert(pair_lookup(ps.push(p), k) =~= (if has_pair_key(ps, k) {
        pair_lookup(ps, k)
    } else if k == p.0 {
        Some(p.1)
    } else {
        None
    }));
}

/// Sorted insertion finds the same values, as long as the inserted key is
/// new.
pub proof fn lemma_insert_pair_lookup(
    s: Seq<(Seq<char>, Seq<char>)>,
    p: (Seq<char>, Seq<char>),
    k: Seq<char>,
)
    requires
        !has_pair_key(s, p.0),
    ensures
        pair_lookup(insert_pair(s, p), k) == (if k == p.0 {
            Some(p.1)
        } else {
            pair_lookup(s, k)
        }),
    decreases s.len(),
{
    if s.len() == 0 {
        assert(insert_pair(s, p)[0] == p);
        assert(insert_pair(s, p).skip(1) =~= Seq::<(Seq<char>, Seq<char>)>::empty());
        assert(pair_lookup(Seq::<(Seq<char>, Seq<char>)>::empty(), k) is None);
    } else if lex_lt(p.0, s[0].0) {
        assert(insert_pair(s, p) == seq![p] + s);
        assert((seq![p] + s)[0] == p);
        assert((seq![p] + s).skip(1) =~= s);
    } else {
        let rest = insert_pair(s.skip(1), p);
        assert(insert_pair(s, p) == seq![s[0]] + rest);
        assert((seq![s[0]] + rest)[0] == s[0]);
        assert((seq![s[0]] + rest).skip(1) =~= rest);
        lemma_insert_pair_lookup(s.skip(1), p, k);
    }
    assert(pair_lookup(insert_pair(s, p), k) =~= (if k == p.0 {
        Some(p.1)
    } else {
        pair_lookup(s, k)
    }));
}

/// Sorting preserves every lookup, given distinct keys.
pub proof fn lemma_sort_pairs_lookup(ps: Seq<(Seq<char>, Seq<char>)>, k: Seq<char>)
    requires
        distinct_strs(pair_keys(ps)),
    ensures
        pair_lookup(sort_pairs(ps), k) == pair_lookup(ps, k),
    decreases ps.len(),
{
    if ps.len() > 0 {
        let init = ps.drop_last();
        let last = ps.last();
        assert forall|a: int, b: int|
            0 <= a < b < init.len() implies pair_keys(init)[a] != pair_keys(init)[b] by {
            assert(pair_keys(init)[a] == init[a].0);
            assert(pair_keys(init)[b] == init[b].0);
            assert(pair_keys(ps)[a] == ps[a].0);
            assert(pair_keys(ps)[b] == ps[b].0);
        }
        assert forall|a: int| 0 <= a < init.len() implies init[a].0 != last.0 by {
            assert(pair_keys(ps)[a] == ps[a].0);
            assert(pair_keys(ps)[ps.len() - 1] == last.0);
        }
        // the sorted prefix has the same keys, so `last.0` is new in it
        lemma_sort_pairs_lookup(init, last.0);
        assert(!has_pair_key(init, last.0)) by {
            lemma_pair_lookup_exists(init, last.0);
        }
        lemma_sort_pairs_lookup(init, k);
        lemma_insert_pair_lookup(sort_pairs(init), last, k);
        lemma_pair_lookup_push(init, last, k);
        assert(ps =~= init.push(last));
    }
}

/// Dropping the empty-version placeholders: a non-empty recorded version
/// is still found, an empty one is gone.
pub proof fn lemma_nonempty_pairs_lookup(ps: Seq<(Seq<char>, Seq<char>)>, k: Seq<char>)
    requires
        distinct_strs(pair_keys(ps)),
    ensures
        pair_lookup(nonempty_pairs(ps), k) == (match pair_lookup(ps, k) {
            Some(v) => if v.len() > 0 {
                Some(v)
            } else {
                None
            },
            None => None,
        }),
    decreases ps.len(),
{
    if ps.len() > 0 {
        let init = ps.drop_last();
        let last = ps.last();
        assert forall|a: int, b: int|
            0 <= a < b < init.len() implies pair_keys(init)[a] != pair_keys(init)[b] by {
            assert(pair_keys(init)[a] == init[a].0);
            assert(pair_keys(init)[b] == init[b].0);
            assert(pair_keys(ps)[a] == ps[a].0);
            assert(pair_keys(ps)[b] == ps[b].0);
        }
        assert forall|a: int| 0 <= a < init.len() implies init[a].0 != last.0 by {
            assert(pair_keys(ps)[a] == ps[a].0);
            assert(pair_keys(ps)[ps.len() - 1] == last.0);
        }
        lemma_nonempty_pairs_lookup(init, k);
        lemma_pair_lookup_push(init, last, k);
        assert(ps =~= init.push(last));
        assert(!has_pair_key(nonempty_pairs(init), last.0)) by {
            lemma_pair_lookup_exists(init, last.0);
            lemma_nonempty_pairs_lookup(init, last.0);
        }
        if last.1.len() > 0 {
            lemma_pair_lookup_push(nonempty_pairs(init), last, k);
        }
        if has_pair_key(init, k) {
            lemma_pair_lookup_exists(init, k);
            let a = choose|a: int| 0 <= a < init.len() && init[a].0 == k;
            assert(init[a].0 != last.0);
        }
    }
    assert(pair_lookup(nonempty_pairs(ps), k) =~= (match pair_lookup(ps, k) {
        Some(v) => if v.len() > 0 {
            Some(v)
        } else {
            None
        },
        None => None,
    }));
}

// ---------------------------------------------------------------------------
// Version folds, pointwise
// ---------------------------------------------------------------------------

/// The dependency-table image of `spec_restore_versions`.
pub open spec fn set_versions_seq(
    deps: Seq<DepEntryV>,
    ps: Seq<(Seq<char>, Seq<char>)>,
) -> Seq<DepEntryV>
    decreases ps.len(),
{
    if ps.len() == 0 {
        deps
    } else {
        set_versions_seq(set_version_in(deps, ps[0].0, ps[0].1), ps.skip(1))
    }
}

/// On a manifest with a dependency table, the version fold is exactly the
/// table-level fold.
pub proof fn lemma_restore_versions_as_seq(m: ManifestV, ps: Seq<(Seq<char>, Seq<char>)>)
    requires
        deps_table_of(m) is Some,
    ensures
        spec_restore_versions(m, ps) == with_deps(m, set_versions_seq(cur_deps(m), ps)),
    decreases ps.len(),
{
    if ps.len() == 0 {
        assert(with_deps(m, cur_deps(m)) =~= m);
    } else {
        let m2 = spec_update_version(m, ps[0].0, ps[0].1);
        assert(m2 == with_deps(m, set_version_in(cur_deps(m), ps[0].0, ps[0].1)));
        assert(deps_table_of(m2) is Some);
        assert(cur_deps(m2) == set_version_in(cur_deps(m), ps[0].0, ps[0].1));
        lemma_restore_versions_as_seq(m2, ps.skip(1));
        assert(with_deps(m2, set_versions_seq(cur_deps(m2), ps.skip(1))) =~= with_deps(
            m,
            set_versions_seq(cur_deps(m), ps),
        ));
    }
}

/// What the fold does to each entry, with distinct keys: the version of an
/// entry whose name is a key becomes that key's recorded value; everything
/// else is untouched.
pub proof fn lemma_set_versions_pointwise(deps: Seq<DepEntryV>, ps: Seq<(Seq<char>, Seq<char>)>)
    requires
        distinct_strs(pair_keys(ps)),
    ensures
        set_versions_seq(deps, ps).len() == deps.len(),
        forall|i: int|
            0 <= i < deps.len() ==> #[trigger] set_versions_seq(deps, ps)[i] == (match pair_lookup(
                ps,
                deps[i].name,
            ) {
                Some(v) => DepEntryV {
                    name: deps[i].name,
                    decl: set_decl_version(deps[i].decl, v),
                },
                None => deps[i],
            }),
    decreases ps.len(),
{
    if ps.len() > 0 {
        let p0 = ps[0];
        let deps2 = set_version_in(deps, p0.0, p0.1);
        assert(deps2.len() == deps.len());
        assert forall|a: int, b: int|
            0 <= a < b < ps.skip(1).len() implies pair_keys(ps.skip(1))[a] != pair_keys(
            ps.skip(1),
        )[b] by {
            assert(pair_keys(ps.skip(1))[a] == ps[a + 1].0);
            assert(pair_keys(ps.skip(1))[b] == ps[b + 1].0);
            assert(pair_keys(ps)[a + 1] == ps[a + 1].0);
            assert(pair_keys(ps)[b + 1] == ps[b + 1].0);
        }
        assert(!has_pair_key(ps.skip(1), p0.0)) by {
            lemma_pair_lookup_exists(ps.skip(1), p0.0);
            if exists|a: int| 0 <= a < ps.skip(1).len() && ps.skip(1)[a].0 == p0.0 {
                let a = choose|a: int| 0 <= a < ps.skip(1).len() && ps.skip(1)[a].0 == p0.0;
                assert(pair_keys(ps)[a + 1] == ps[a + 1].0);
                assert(pair_keys(ps)[0] == p0.0);
            }
        }
        lemma_set_versions_pointwise(deps2, ps.skip(1));
        assert forall|i: int|
            0 <= i < deps.len() implies #[trigger] set_versions_seq(deps, ps)[i] == (
        match pair_lookup(ps, deps[i].name) {
            Some(v) => DepEntryV { name: deps[i].name, decl: set_decl_version(deps[i].decl, v) },
            None => deps[i],
        }) by {
            assert(deps2[i] == (if deps[i].name == p0.0 {
                DepEntryV { name: deps[i].name, decl: set_decl_version(deps[i].decl, p0.1) }
            } else {
                deps[i]
            }));
            assert(deps2[i].name == deps[i].name);
            assert(set_versions_seq(deps, ps)[i] == set_versions_seq(deps2, ps.skip(1))[i]);
            if deps[i].name == p0.0 {
                assert(pair_lookup(ps.skip(1), deps[i].name) is None);
                assert(pair_lookup(ps, deps[i].name) == Some(p0.1));
            }
        }
    }
}

/// Setting a version and then setting back the one that was declared
/// leaves a declaration as it was.
pub proof fn lemma_set_decl_version_undo(d: crate::manifest::DepDeclV, vnew: Seq<char>, vold: Seq<char>)
    requires
        decl_version(d) == Some(vold),
    ensures
        set_decl_version(set_decl_version(d, vnew), vold) == d,
{
    assert(set_decl_version(set_decl_version(d, vnew), vold) =~= d);
}

// ---------------------------------------------------------------------------
// Recorded versions, looked up
// ---------------------------------------------------------------------------

/// What the recorded pre-patch versions hold for any key.
pub proof fn lemma_originals_lookup(deps: Seq<DepEntryV>, ns: Seq<Seq<char>>, k: Seq<char>)
    requires
        distinct_strs(ns),
    ensures
        pair_lookup(crate::patch::originals_for(deps, ns), k) == (if crate::store::contains_str(ns, k) {
            Some(version_or_empty(deps, k))
        } else {
            None
        }),
    decreases ns.len(),
{
    let ov = crate::patch::originals_for(deps, ns);
    if ns.len() == 0 {
        assert(!crate::store::contains_str(ns, k));
        assert(ov.len() == 0);
    } else {
        let init = ns.drop_last();
        let last = ns.last();
        let oinit = crate::patch::originals_for(deps, init);
        assert(ov =~= oinit.push((last, version_or_empty(deps, last)))) by {
            assert forall|i: int| 0 <= i < ns.len() - 1 implies ov[i] == oinit[i] by {
                assert(ov[i] == (ns[i], version_or_empty(deps, ns[i])));
                assert(oinit[i] == (init[i], version_or_empty(deps, init[i])));
            }
            assert(ov[ns.len() - 1] == (last, version_or_empty(deps, last)));
        }
        assert(distinct_strs(init));
        lemma_originals_lookup(deps, init, k);
        lemma_pair_lookup_push(oinit, (last, version_or_empty(deps, last)), k);
        if crate::store::contains_str(init, k) {
            let a = choose|a: int| 0 <= a < init.len() && init[a] == k;
            assert(ns[a] == k);
        }
        if crate::store::contains_str(ns, k) && !crate::store::contains_str(init, k) {
            let a = choose|a: int| 0 <= a < ns.len() && ns[a] == k;
            if a < ns.len() - 1 {
                assert(init[a] == k);
            }
            assert(k == last);
        }
        assert(pair_lookup(ov, k) =~= (if crate::store::contains_str(ns, k) {
            Some(version_or_empty(deps, k))
        } else {
            None
        }));
    }
}

/// The recorded keys are exactly the names recorded.
pub proof fn lemma_originals_keys(deps: Seq<DepEntryV>, ns: Seq<Seq<char>>)
    ensures
        pair_keys(crate::patch::originals_for(deps, ns)) == ns,
{
    let ov = crate::patch::originals_for(deps, ns);
    assert forall|i: int| 0 <= i < ns.len() implies pair_keys(ov)[i] == ns[i] by {
        assert(ov[i] == (ns[i], version_or_empty(deps, ns[i])));
    }
    assert(pair_keys(ov) =~= ns);
}

// ---------------------------------------------------------------------------
// Distinct keys survive sorting and filtering
// ---------------------------------------------------------------------------

/// Where sorted insertion splits the sequence.
pub proof fn lemma_insert_pair_split(
    s: Seq<(Seq<char>, Seq<char>)>,
    p: (Seq<char>, Seq<char>),
) -> (k: int)
    ensures
        0 <= k <= s.len(),
        insert_pair(s, p) == s.take(k) + seq![p] + s.skip(k),
    decreases s.len(),
{
    if s.len() == 0 {
        assert(insert_pair(s, p) =~= s.take(0) + seq![p] + s.skip(0));
        0
    } else if lex_lt(p.0, s[0].0) {
        assert(insert_pair(s, p) =~= s.take(0) + seq![p] + s.skip(0));
        0
    } else {
        let k2 = lemma_insert_pair_split(s.skip(1), p);
        assert(seq![s[0]] + (s.skip(1).take(k2) + seq![p] + s.skip(1).skip(k2)) =~= s.take(k2 + 1)
            + seq![p] + s.skip(k2 + 1));
        k2 + 1
    }
}

/// Inserting a fresh key keeps the keys distinct.
pub proof fn lemma_insert_pair_distinct(s: Seq<(Seq<char>, Seq<char>)>, p: (Seq<char>, Seq<char>))
    requires
        distinct_strs(pair_keys(s)),
        !has_pair_key(s, p.0),
    ensures
        distinct_strs(pair_keys(insert_pair(s, p))),
{
    let k = lemma_insert_pair_split(s, p);
    let out = insert_pair(s, p);
    lemma_pair_lookup_exists(s, p.0);
    assert forall|a: int| 0 <= a < s.len() implies s[a].0 != p.0 by {
        if s[a].0 == p.0 {
            assert(0 <= a < s.len() && s[a].0 == p.0);
        }
    }
    assert forall|a: int, b: int|
        0 <= a < b < out.len() implies pair_keys(out)[a] != pair_keys(out)[b] by {
        assert(pair_keys(out)[a] == out[a].0);
        assert(pair_keys(out)[b] == out[b].0);
        let sa: int = if a < k {
            a
        } else {
            a - 1
        };
        let sb: int = if b < k {
            b
        } else {
            b - 1
        };
        if a != k && b != k {
            assert(out[a].0 == s[sa].0);
            assert(out[b].0 == s[sb].0);
            assert(pair_keys(s)[sa] == s[sa].0);
            assert(pair_keys(s)[sb] == s[sb].0);
        } else if a == k {
            assert(out[a].0 == p.0);
            assert(out[b].0 == s[sb].0);
        } else {
            assert(out[b].0 == p.0);
            assert(out[a].0 == s[sa].0);
        }
    }
}

/// Sorting keeps the keys distinct.
pub proof fn lemma_sort_pairs_distinct(ps: Seq<(Seq<char>, Seq<char>)>)
    requires
        distinct_strs(pair_keys(ps)),
    ensures
        distinct_strs(pair_keys(sort_pairs(ps))),
    decreases ps.len(),
{
    if ps.len() > 0 {
        let init = ps.drop_last();
        let last = ps.last();
        assert forall|a: int, b: int|
            0 <= a < b < init.len() implies pair_keys(init)[a] != pair_keys(init)[b] by {
            assert(pair_keys(init)[a] == init[a].0);
            assert(pair_keys(init)[b] == init[b].0);
            assert(pair_keys(ps)[a] == ps[a].0);
            assert(pair_keys(ps)[b] == ps[b].0);
        }
        lemma_sort_pairs_distinct(init);
        assert forall|a: int| 0 <= a < init.len() implies init[a].0 != last.0 by {
            assert(pair_keys(ps)[a] == ps[a].0);
            assert(pair_keys(ps)[ps.len() - 1] == last.0);
        }
        assert(!has_pair_key(sort_pairs(init), last.0)) by {
            lemma_sort_pairs_lookup(init, last.0);
            lemma_pair_lookup_exists(init, last.0);
        }
        lemma_insert_pair_distinct(sort_pairs(init), last);
    }
}

/// Dropping the empty-version placeholders keeps the keys distinct.
pub proof fn lemma_nonempty_pairs_distinct(ps: Seq<(Seq<char>, Seq<char>)>)
    requires
        distinct_strs(pair_keys(ps)),
    ensures
        distinct_strs(pair_keys(nonempty_pairs(ps))),
    decreases ps.len(),
{
    if ps.len() > 0 {
        let init = ps.drop_last();
        let last = ps.last();
        assert forall|a: int, b: int|
            0 <= a < b < init.len() implies pair_keys(init)[a] != pair_keys(init)[b] by {
            assert(pair_keys(init)[a] == init[a].0);
            assert(pair_keys(init)[b] == init[b].0);
            assert(pair_keys(ps)[a] == ps[a].0);
            assert(pair_keys(ps)[b] == ps[b].0);
        }
        lemma_nonempty_pairs_distinct(init);
        if last.1.len() > 0 {
            let ne = nonempty_pairs(init);
            assert forall|a: int| 0 <= a < init.len() implies init[a].0 != last.0 by {
                assert(pair_keys(ps)[a] == ps[a].0);
                assert(pair_keys(ps)[ps.len() - 1] == last.0);
            }
            assert(!has_pair_key(ne, last.0)) by {
                lemma_nonempty_pairs_lookup(init, last.0);
                lemma_pair_lookup_exists(init, last.0);
            }
            lemma_pair_lookup_exists(ne, last.0);
            assert forall|a: int, b: int|
                0 <= a < b < ne.push(last).len() implies pair_keys(ne.push(last))[a] != pair_keys(
                ne.push(last),
            )[b] by {
                assert(pair_keys(ne.push(last))[a] == ne.push(last)[a].0);
                assert(pair_keys(ne.push(last))[b] == ne.push(last)[b].0);
                if b < ne.len() {
                    assert(pair_keys(ne)[a] == ne[a].0);
                    assert(pair_keys(ne)[b] == ne[b].0);
                } else {
                    if ne[a].0 == last.0 {
                        assert(0 <= a < ne.len() && ne[a].0 == last.0);
                    }
                    assert(pair_keys(ne)[a] == ne[a].0);
                }
            }
        }
    }
}

// ---------------------------------------------------------------------------
// The dependency table round-trips
// ---------------------------------------------------------------------------

/// No two entries of a dependency table share a name.
pub open spec fn distinct_dep_names(deps: Seq<DepEntryV>) -> bool {
    forall|i: int, j: int| 0 <= i < j < deps.len() ==> deps[i].name != deps[j].name
}

/// With distinct names, the entry at any index is the one looked up.
pub proof fn lemma_lookup_dep_at(deps: Seq<DepEntryV>, i: int)
    requires
        distinct_dep_names(deps),
        0 <= i < deps.len(),
    ensures
        lookup_dep(deps, deps[i].name) == Some(deps[i]),
    decreases deps.len(),
{
    if i > 0 {
        assert forall|a: int, b: int|
            0 <= a < b < deps.skip(1).len() implies deps.skip(1)[a].name != deps.skip(
            1,
        )[b].name by {
            assert(deps.skip(1)[a] == deps[a + 1]);
            assert(deps.skip(1)[b] == deps[b + 1]);
        }
        lemma_lookup_dep_at(deps.skip(1), i - 1);
        assert(deps.skip(1)[i - 1] == deps[i]);
    }
}

/// Updating the declared versions of some recorded crates and then folding
/// the recorded versions back restores the table exactly.
///
/// `updates` may carry any new versions, but must touch exactly the
/// recorded crates that had a non-empty declared version — which is what
/// the apply step does.
pub proof fn lemma_versions_round_trip(
    deps: Seq<DepEntryV>,
    ns: Seq<Seq<char>>,
    updates: Seq<(Seq<char>, Seq<char>)>,
)
    requires
        distinct_strs(ns),
        distinct_dep_names(deps),
        distinct_strs(pair_keys(updates)),
        forall|k: Seq<char>|
            #[trigger] has_pair_key(updates, k) ==> (crate::store::contains_str(ns, k) && version_or_empty(
                deps,
                k,
            ).len() > 0),
    ensures
        set_versions_seq(
            set_versions_seq(deps, updates),
            nonempty_pairs(sort_pairs(crate::patch::originals_for(deps, ns))),
        ) == deps,
{
    let o = crate::patch::originals_for(deps, ns);
    let r = nonempty_pairs(sort_pairs(o));
    lemma_originals_keys(deps, ns);
    lemma_sort_pairs_distinct(o);
    lemma_nonempty_pairs_distinct(sort_pairs(o));
    let d1 = set_versions_seq(deps, updates);
    lemma_set_versions_pointwise(deps, updates);
    lemma_set_versions_pointwise(d1, r);
    let d2 = set_versions_seq(d1, r);
    assert forall|i: int| 0 <= i < deps.len() implies d2[i] == deps[i] by {
        let n = deps[i].name;
        assert(d1[i].name == n);
        lemma_sort_pairs_lookup(o, n);
        lemma_nonempty_pairs_lookup(sort_pairs(o), n);
        lemma_originals_lookup(deps, ns, n);
        lemma_lookup_dep_at(deps, i);
        assert(version_or_empty(deps, n) == (match decl_version(deps[i].decl) {
            Some(v) => v,
            None => Seq::<char>::empty(),
        }));
        if crate::store::contains_str(ns, n) && version_or_empty(deps, n).len() > 0 {
            // restored to the non-empty declared version, whether or not a
            // new version was set in between
            assert(pair_lookup(r, n) == Some(version_or_empty(deps, n)));
            assert(decl_version(deps[i].decl) == Some(version_or_empty(deps, n)));
            if has_pair_key(updates, n) {
                let vu = pair_lookup(updates, n)->Some_0;
                assert(d1[i] == DepEntryV { name: n, decl: set_decl_version(deps[i].decl, vu) });
                lemma_set_decl_version_undo(deps[i].decl, vu, version_or_empty(deps, n));
            } else {
                assert(d1[i] == deps[i]);
                lemma_set_decl_version_undo(
                    deps[i].decl,
                    version_or_empty(deps, n),
                    version_or_empty(deps, n),
                );
            }
        } else {
            // never touched in either direction
            assert(!has_pair_key(updates, n));
            assert(d1[i] == deps[i]);
            assert(pair_lookup(r, n) is None);
        }
    }
    assert(d2 =~= deps);
}

// ---------------------------------------------------------------------------
// The patch section round-trips
// ---------------------------------------------------------------------------

pub open spec fn entry_names(es: Seq<PatchEntryV>) -> Seq<Seq<char>> {
    es.map_values(|e: PatchEntryV| e.name)
}

/// Entries appended to every table of the given origin.
pub open spec fn append_to_key(
    ts: Seq<OriginTableV>,
    key: Seq<char>,
    es: Seq<PatchEntryV>,
) -> Seq<OriginTableV>
    decreases ts.len(),
{
    if ts.len() == 0 {
        Seq::empty()
    } else {
        append_to_key(ts.drop_last(), key, es).push(
            if ts.last().origin == key {
                OriginTableV { origin: ts.last().origin, entries: ts.last().entries + es }
            } else {
                ts.last()
            },
        )
    }
}

pub proof fn lemma_append_to_key_pointwise(
    ts: Seq<OriginTableV>,
    key: Seq<char>,
    es: Seq<PatchEntryV>,
)
    ensures
        append_to_key(ts, key, es).len() == ts.len(),
        forall|i: int|
            0 <= i < ts.len() ==> #[trigger] append_to_key(ts, key, es)[i] == (if ts[i].origin
                == key {
                OriginTableV { origin: ts[i].origin, entries: ts[i].entries + es }
            } else {
                ts[i]
            }),
    decreases ts.len(),
{
    if ts.len() > 0 {
        lemma_append_to_key_pointwise(ts.drop_last(), key, es);
        assert forall|i: int|
            0 <= i < ts.len() implies #[trigger] append_to_key(ts, key, es)[i] == (if ts[i].origin
            == key {
            OriginTableV { origin: ts[i].origin, entries: ts[i].entries + es }
        } else {
            ts[i]
        }) by {
            if i < ts.len() - 1 {
                assert(append_to_key(ts, key, es)[i] == append_to_key(ts.drop_last(), key, es)[i]);
                assert(ts.drop_last()[i] == ts[i]);
            }
        }
    }
}

/// One insertion, named after no existing entry, appends.
pub proof fn lemma_add_patch_once(ts: Seq<OriginTableV>, key: Seq<char>, e: PatchEntryV)
    requires
        !existing_patched(ts, e.name),
    ensures
        crate::store::spec_add_patch(ts, key, e) == (if crate::store::has_origin(ts, key) {
            append_to_key(ts, key, seq![e])
        } else {
            ts.push(OriginTableV { origin: key, entries: seq![e] })
        }),
{
    lemma_append_to_key_pointwise(ts, key, seq![e]);
    if crate::store::has_origin(ts, key) {
        assert forall|i: int|
            0 <= i < ts.len() implies crate::store::spec_add_patch(ts, key, e)[i] == append_to_key(
            ts,
            key,
            seq![e],
        )[i] by {
            if ts[i].origin == key {
                assert(!crate::store::has_entry(ts[i].entries, e.name));
                assert(crate::store::upsert_entry(ts[i].entries, e) == ts[i].entries.push(e));
                assert(ts[i].entries.push(e) =~= ts[i].entries + seq![e]);
            }
        }
        assert(crate::store::spec_add_patch(ts, key, e) =~= append_to_key(ts, key, seq![e]));
    }
}

/// Appending twice appends the concatenation.
pub proof fn lemma_append_to_key_twice(
    ts: Seq<OriginTableV>,
    key: Seq<char>,
    a: Seq<PatchEntryV>,
    b: Seq<PatchEntryV>,
)
    ensures
        append_to_key(append_to_key(ts, key, a), key, b) == append_to_key(ts, key, a + b),
{
    lemma_append_to_key_pointwise(ts, key, a);
    lemma_append_to_key_pointwise(append_to_key(ts, key, a), key, b);
    lemma_append_to_key_pointwise(ts, key, a + b);
    assert forall|i: int|
        0 <= i < ts.len() implies append_to_key(append_to_key(ts, key, a), key, b)[i]
        == append_to_key(ts, key, a + b)[i] by {
        if ts[i].origin == key {
            assert((ts[i].entries + a) + b =~= ts[i].entries + (a + b));
        }
    }
    assert(append_to_key(append_to_key(ts, key, a), key, b) =~= append_to_key(ts, key, a + b));
}

/// Appending entries under one key reaches no other name.
pub proof fn lemma_existing_after_append(
    ts: Seq<OriginTableV>,
    key: Seq<char>,
    es: Seq<PatchEntryV>,
    n: Seq<char>,
)
    requires
        !existing_patched(ts, n),
        forall|i: int| 0 <= i < es.len() ==> es[i].name != n,
    ensures
        !existing_patched(append_to_key(ts, key, es), n),
{
    lemma_append_to_key_pointwise(ts, key, es);
    let out = append_to_key(ts, key, es);
    assert forall|i: int| 0 <= i < out.len() implies !crate::store::has_entry(
        out[i].entries,
        n,
    ) by {
        assert(!crate::store::has_entry(ts[i].entries, n));
        if ts[i].origin == key {
            assert forall|j: int| 0 <= j < out[i].entries.len() implies out[i].entries[j].name
                != n by {
                if j < ts[i].entries.len() {
                    assert(out[i].entries[j] == ts[i].entries[j]);
                } else {
                    assert(out[i].entries[j] == es[j - ts[i].entries.len()]);
                }
            }
        }
    }
}

/// The patch-section image of `spec_add_entries`.
pub open spec fn add_entries_seq(
    ts: Seq<OriginTableV>,
    key: Seq<char>,
    es: Seq<PatchEntryV>,
) -> Seq<OriginTableV>
    decreases es.len(),
{
    if es.len() == 0 {
        ts
    } else {
        add_entries_seq(crate::store::spec_add_patch(ts, key, es[0]), key, es.skip(1))
    }
}

/// Adding entries touches only the patch section.
pub proof fn lemma_add_entries_as_seq(m: ManifestV, key: Seq<char>, es: Seq<PatchEntryV>)
    ensures
        crate::patch::spec_add_entries(m, key, es) == (ManifestV {
            patch: add_entries_seq(m.patch, key, es),
            ..m
        }),
    decreases es.len(),
{
    if es.len() == 0 {
        assert(crate::patch::spec_add_entries(m, key, es) =~= ManifestV {
            patch: add_entries_seq(m.patch, key, es),
            ..m
        });
    } else {
        let m2 = crate::store::spec_add_patch_section(m, key, es[0]);
        lemma_add_entries_as_seq(m2, key, es.skip(1));
        assert(crate::patch::spec_add_entries(m, key, es) =~= ManifestV {
            patch: add_entries_seq(m.patch, key, es),
            ..m
        });
    }
}

/// Fresh, distinct entries are simply appended: to the existing origin
/// table when there is one, as a new table otherwise.
pub proof fn lemma_add_entries_shape(ts: Seq<OriginTableV>, key: Seq<char>, es: Seq<PatchEntryV>)
    requires
        es.len() > 0,
        distinct_strs(entry_names(es)),
        forall|i: int| 0 <= i < es.len() ==> !existing_patched(ts, #[trigger] es[i].name),
    ensures
        add_entries_seq(ts, key, es) == (if crate::store::has_origin(ts, key) {
            append_to_key(ts, key, es)
        } else {
            ts.push(OriginTableV { origin: key, entries: es })
        }),
    decreases es.len(),
{
    let e0 = es[0];
    lemma_add_patch_once(ts, key, e0);
    let ts1 = crate::store::spec_add_patch(ts, key, e0);
    if es.len() == 1 {
        assert(es.skip(1) =~= Seq::<PatchEntryV>::empty());
        assert(add_entries_seq(ts1, key, es.skip(1)) == ts1);
        assert(add_entries_seq(ts, key, es) == ts1);
        if crate::store::has_origin(ts, key) {
            lemma_append_to_key_pointwise(ts, key, seq![e0]);
            lemma_append_to_key_pointwise(ts, key, es);
            assert forall|i: int|
                0 <= i < ts.len() implies append_to_key(ts, key, seq![e0])[i] == append_to_key(
                ts,
                key,
                es,
            )[i] by {
                if ts[i].origin == key {
                    assert(ts[i].entries + seq![e0] =~= ts[i].entries + es);
                }
            }
            assert(append_to_key(ts, key, seq![e0]) =~= append_to_key(ts, key, es));
        } else {
            assert(seq![e0] =~= es);
        }
    } else {
        // names of the remaining entries, distinct from the first and new
        assert forall|a: int, b: int|
            0 <= a < b < es.skip(1).len() implies entry_names(es.skip(1))[a] != entry_names(
            es.skip(1),
        )[b] by {
            assert(entry_names(es.skip(1))[a] == es[a + 1].name);
            assert(entry_names(es.skip(1))[b] == es[b + 1].name);
            assert(entry_names(es)[a + 1] == es[a + 1].name);
            assert(entry_names(es)[b + 1] == es[b + 1].name);
        }
        assert forall|i: int| 0 <= i < es.skip(1).len() implies !existing_patched(
            ts1,
            #[trigger] es.skip(1)[i].name,
        ) by {
            assert(es.skip(1)[i] == es[i + 1]);
            assert(entry_names(es)[0] == e0.name);
            assert(entry_names(es)[i + 1] == es[i + 1].name);
            if crate::store::has_origin(ts, key) {
                lemma_existing_after_append(ts, key, seq![e0], es[i + 1].name);
            } else {
                let pushed = ts.push(OriginTableV { origin: key, entries: seq![e0] });
                assert forall|a: int| 0 <= a < pushed.len() implies !crate::store::has_entry(
                    pushed[a].entries,
                    es[i + 1].name,
                ) by {
                    if a < ts.len() {
                        assert(!crate::store::has_entry(ts[a].entries, es[i + 1].name));
                    } else {
                        assert(pushed[a].entries == seq![e0]);
                    }
                }
            }
        }
        assert(crate::store::has_origin(ts1, key)) by {
            if crate::store::has_origin(ts, key) {
                let a = choose|a: int| 0 <= a < ts.len() && ts[a].origin == key;
                lemma_append_to_key_pointwise(ts, key, seq![e0]);
                assert(ts1[a].origin == key);
            } else {
                assert(ts1[ts.len() as int].origin == key);
            }
        }
        lemma_add_entries_shape(ts1, key, es.skip(1));
        if crate::store::has_origin(ts, key) {
            lemma_append_to_key_twice(ts, key, seq![e0], es.skip(1));
            assert(seq![e0] + es.skip(1) =~= es);
        } else {
            let pushed = ts.push(OriginTableV { origin: key, entries: seq![e0] });
            lemma_append_to_key_pointwise(pushed, key, es.skip(1));
            assert forall|a: int| 0 <= a < ts.len() implies append_to_key(
                pushed,
                key,
                es.skip(1),
            )[a] == ts[a] by {
                assert(pushed[a] == ts[a]);
                if ts[a].origin == key {
                    let i = a;
                    assert(0 <= i < ts.len() && ts[i].origin == key);
                    assert(crate::store::has_origin(ts, key));
                }
            }
            assert(append_to_key(pushed, key, es.skip(1))[ts.len() as int] == OriginTableV {
                origin: key,
                entries: seq![e0] + es.skip(1),
            });
            assert(seq![e0] + es.skip(1) =~= es);
            assert(append_to_key(pushed, key, es.skip(1)) =~= ts.push(
                OriginTableV { origin: key, entries: es },
            ));
        }
    }
}

// ---------------------------------------------------------------------------
// Stripping recorded entries
// ---------------------------------------------------------------------------

pub proof fn lemma_singleton_contains(key: Seq<char>, x: Seq<char>)
    ensures
        crate::store::contains_str(seq![key], x) <==> x == key,
{
    assert(seq![key][0] == key);
    if crate::store::contains_str(seq![key], x) {
        let i = choose|i: int| 0 <= i < seq![key].len() && seq![key][i] == x;
        assert(i == 0);
    }
}

pub proof fn lemma_keys_contains(ps: Seq<(Seq<char>, Seq<char>)>, x: Seq<char>)
    ensures
        crate::store::contains_str(pair_keys(ps), x) <==> has_pair_key(ps, x),
{
    lemma_pair_lookup_exists(ps, x);
    if crate::store::contains_str(pair_keys(ps), x) {
        let i = choose|i: int| 0 <= i < pair_keys(ps).len() && pair_keys(ps)[i] == x;
        assert(pair_keys(ps)[i] == ps[i].0);
        assert(0 <= i < ps.len() && ps[i].0 == x);
    }
    if has_pair_key(ps, x) {
        let i = choose|i: int| 0 <= i < ps.len() && ps[i].0 == x;
        assert(pair_keys(ps)[i] == ps[i].0);
    }
}

pub proof fn lemma_strip_entries_split(
    a: Seq<PatchEntryV>,
    b: Seq<PatchEntryV>,
    names: Seq<Seq<char>>,
)
    ensures
        crate::store::strip_entries(a + b, names) == crate::store::strip_entries(a, names)
            + crate::store::strip_entries(b, names),
    decreases b.len(),
{
    if b.len() == 0 {
        assert(a + b =~= a);
        assert(crate::store::strip_entries(b, names) =~= Seq::<PatchEntryV>::empty());
        assert(crate::store::strip_entries(a, names) + crate::store::strip_entries(b, names)
            =~= crate::store::strip_entries(a, names));
    } else {
        assert((a + b).drop_last() =~= a + b.drop_last());
        assert((a + b).last() == b.last());
        lemma_strip_entries_split(a, b.drop_last(), names);
        if !crate::store::contains_str(names, b.last().name) {
            assert((crate::store::strip_entries(a, names) + crate::store::strip_entries(
                b.drop_last(),
                names,
            )).push(b.last()) =~= crate::store::strip_entries(a, names)
                + crate::store::strip_entries(b.drop_last(), names).push(b.last()));
        }
    }
}

pub proof fn lemma_strip_entries_none(es: Seq<PatchEntryV>, names: Seq<Seq<char>>)
    requires
        forall|i: int|
            0 <= i < es.len() ==> !crate::store::contains_str(names, #[trigger] es[i].name),
    ensures
        crate::store::strip_entries(es, names) == es,
    decreases es.len(),
{
    if es.len() > 0 {
        assert forall|i: int| 0 <= i < es.drop_last().len() implies !crate::store::contains_str(
            names,
            #[trigger] es.drop_last()[i].name,
        ) by {
            assert(es.drop_last()[i] == es[i]);
        }
        lemma_strip_entries_none(es.drop_last(), names);
        assert(es.drop_last().push(es.last()) =~= es);
    }
}

pub proof fn lemma_strip_entries_all(es: Seq<PatchEntryV>, names: Seq<Seq<char>>)
    requires
        forall|i: int|
            0 <= i < es.len() ==> crate::store::contains_str(names, #[trigger] es[i].name),
    ensures
        crate::store::strip_entries(es, names) == Seq::<PatchEntryV>::empty(),
    decreases es.len(),
{
    if es.len() > 0 {
        assert forall|i: int| 0 <= i < es.drop_last().len() implies crate::store::contains_str(
            names,
            #[trigger] es.drop_last()[i].name,
        ) by {
            assert(es.drop_last()[i] == es[i]);
        }
        lemma_strip_entries_all(es.drop_last(), names);
    }
}

/// A patch section with nothing to strip is untouched.
pub proof fn lemma_strip_keep(ts: Seq<OriginTableV>, key: Seq<char>, names: Seq<Seq<char>>)
    requires
        forall|i: int|
            0 <= i < ts.len() ==> ((#[trigger] ts[i]).origin == key ==> ts[i].entries.len() > 0),
        forall|i: int, j: int|
            0 <= i < ts.len() && 0 <= j < ts[i].entries.len() ==> !crate::store::contains_str(
                names,
                #[trigger] ts[i].entries[j].name,
            ),
    ensures
        crate::store::strip_tables(ts, seq![key], names) == ts,
    decreases ts.len(),
{
    if ts.len() > 0 {
        let init = ts.drop_last();
        let last = ts.last();
        assert forall|i: int|
            0 <= i < init.len() && (#[trigger] init[i]).origin == key
            implies init[i].entries.len() > 0 by {
            assert(init[i] == ts[i]);
        }
        assert forall|i: int, j: int|
            0 <= i < init.len() && 0 <= j < init[i].entries.len()
            implies !crate::store::contains_str(names, #[trigger] init[i].entries[j].name) by {
            assert(init[i] == ts[i]);
        }
        lemma_strip_keep(init, key, names);
        lemma_singleton_contains(key, last.origin);
        if last.origin == key {
            assert forall|j: int| 0 <= j < last.entries.len()
                implies !crate::store::contains_str(names, #[trigger] last.entries[j].name) by {
                assert(ts[ts.len() - 1].entries[j] == last.entries[j]);
            }
            lemma_strip_entries_none(last.entries, names);
            assert(last.entries.len() > 0);
            assert(OriginTableV { origin: last.origin, entries: last.entries } =~= last);
        }
        assert(init.push(last) =~= ts);
    }
}

/// Stripping the appended names from their origin tables restores the
/// patch section exactly.
pub proof fn lemma_strip_append_inverse(
    ts: Seq<OriginTableV>,
    key: Seq<char>,
    es: Seq<PatchEntryV>,
    names: Seq<Seq<char>>,
)
    requires
        forall|i: int|
            0 <= i < ts.len() ==> ((#[trigger] ts[i]).origin == key ==> ts[i].entries.len() > 0),
        forall|i: int, j: int|
            0 <= i < ts.len() && 0 <= j < ts[i].entries.len() ==> !crate::store::contains_str(
                names,
                #[trigger] ts[i].entries[j].name,
            ),
        forall|i: int|
            0 <= i < es.len() ==> crate::store::contains_str(names, #[trigger] es[i].name),
    ensures
        crate::store::strip_tables(append_to_key(ts, key, es), seq![key], names) == ts,
    decreases ts.len(),
{
    if ts.len() > 0 {
        let init = ts.drop_last();
        let last = ts.last();
        let a = append_to_key(ts, key, es);
        assert(a.drop_last() =~= append_to_key(init, key, es));
        assert forall|i: int|
            0 <= i < init.len() && (#[trigger] init[i]).origin == key
            implies init[i].entries.len() > 0 by {
            assert(init[i] == ts[i]);
        }
        assert forall|i: int, j: int|
            0 <= i < init.len() && 0 <= j < init[i].entries.len()
            implies !crate::store::contains_str(names, #[trigger] init[i].entries[j].name) by {
            assert(init[i] == ts[i]);
        }
        lemma_strip_append_inverse(init, key, es, names);
        lemma_singleton_contains(key, last.origin);
        if last.origin == key {
            assert(a.last() == OriginTableV { origin: last.origin, entries: last.entries + es });
            lemma_strip_entries_split(last.entries, es, names);
            assert forall|j: int| 0 <= j < last.entries.len()
                implies !crate::store::contains_str(names, #[trigger] last.entries[j].name) by {
                assert(ts[ts.len() - 1].entries[j] == last.entries[j]);
            }
            lemma_strip_entries_none(last.entries, names);
            lemma_strip_entries_all(es, names);
            assert(crate::store::strip_entries(last.entries + es, names) =~= last.entries);
            assert(last.entries.len() > 0);
            assert(OriginTableV { origin: last.origin, entries: last.entries } =~= last);
        } else {
            assert(a.last() == last);
        }
        assert(init.push(last) =~= ts);
    } else {
        assert(append_to_key(ts, key, es) =~= Seq::<OriginTableV>::empty());
    }
}

// ---------------------------------------------------------------------------
// Applying is reversible
// ---------------------------------------------------------------------------

/// What a manifest must look like for the reversibility laws: a
/// dependency table with distinct names, and — as every table parsed from
/// a real document has — no empty origin table under the key about to be
/// used.
pub open spec fn law_manifest_ok(m1: ManifestV, key: Seq<char>) -> bool {
    &&& m1.workspace_metadata is None
    &&& m1.package_metadata is None
    &&& deps_table_of(m1) is Some
    &&& distinct_dep_names(cur_deps(m1))
    &&& forall|i: int|
        0 <= i < m1.patch.len() ==> ((#[trigger] m1.patch[i]).origin == key
            ==> m1.patch[i].entries.len() > 0)
}

/// What the mutation step receives: distinct candidate names that are all
/// declared, none of them already patched anywhere, entries named after
/// exactly the candidates, and version updates touching exactly the
/// candidates that declare a non-empty version.
pub open spec fn law_selection_ok(
    m1: ManifestV,
    ns: Seq<Seq<char>>,
    updates: Seq<(Seq<char>, Seq<char>)>,
    entries: Seq<PatchEntryV>,
) -> bool {
    &&& distinct_strs(ns)
    &&& ns.len() > 0
    &&& entry_names(entries) == ns
    &&& (forall|i: int| 0 <= i < ns.len() ==> !existing_patched(m1.patch, #[trigger] ns[i]))
    &&& distinct_strs(pair_keys(updates))
    &&& (forall|k: Seq<char>|
        #[trigger] has_pair_key(updates, k) ==> (crate::store::contains_str(ns, k)
            && version_or_empty(cur_deps(m1), k).len() > 0))
}

/// Reversibility: on a manifest without managed state, the whole mutation
/// step of an apply is undone exactly by the restore-and-strip sequence
/// that both the removal and the self-clean of a later apply run.  The
/// dependency table, the patch section and the metadata all return to
/// their pre-apply state.
pub proof fn lemma_apply_clean_inverse(
    m1: ManifestV,
    ns: Seq<Seq<char>>,
    updates: Seq<(Seq<char>, Seq<char>)>,
    key: Seq<char>,
    entries: Seq<PatchEntryV>,
)
    requires
        law_manifest_ok(m1, key),
        law_selection_ok(m1, ns, updates, entries),
    ensures
        ({
            let origs = crate::patch::originals_for(cur_deps(m1), ns);
            let mm = crate::patch::spec_apply_mutation(m1, origs, updates, key, entries);
            &&& managed_of(mm) == seq![key]
            &&& originals_of(mm) == sort_pairs(origs)
            &&& mm.patch.len() > 0
            &&& crate::store::spec_remove_managed(
                spec_restore_versions(mm, nonempty_pairs(originals_of(mm))),
            ) == m1
            &&& crate::patch::spec_self_clean(mm) == m1
        }),
{
    let d0 = cur_deps(m1);
    let origs = crate::patch::originals_for(d0, ns);
    let d1 = set_versions_seq(d0, updates);

    // the mutation, step by step
    let mu = spec_restore_versions(m1, updates);
    lemma_restore_versions_as_seq(m1, updates);
    assert(mu == with_deps(m1, d1));
    assert(mu.workspace_metadata is None && mu.package_metadata is None);
    assert(mu.patch == m1.patch);
    assert(mu.has_workspace == m1.has_workspace);
    assert(deps_table_of(mu) is Some);
    assert(cur_deps(mu) == d1);

    let st = crate::manifest::ManagedStateV {
        original_versions: sort_pairs(origs),
        managed_patches: seq![key],
    };
    let ms = crate::store::spec_store_originals(mu, origs);
    let ma = crate::store::spec_add_managed(ms, key);
    assert(Seq::<Seq<char>>::empty().push(key) =~= seq![key]);
    if m1.has_workspace {
        assert(ma.workspace_metadata == Some(st));
        assert(ma.package_metadata is None);
    } else {
        assert(ma.package_metadata == Some(st));
        assert(ma.workspace_metadata is None);
    }
    assert(crate::store::loaded_state(ma) == Some(st));
    assert(ma.patch == m1.patch);
    assert(cur_deps(ma) == d1 && deps_table_of(ma) is Some);

    let mm = crate::patch::spec_apply_mutation(m1, origs, updates, key, entries);
    lemma_add_entries_as_seq(ma, key, entries);
    assert(mm == ManifestV { patch: add_entries_seq(m1.patch, key, entries), ..ma });
    assert(crate::store::loaded_state(mm) == Some(st));
    assert(managed_of(mm) =~= seq![key]);
    assert(originals_of(mm) == sort_pairs(origs));

    // the new patch section
    assert forall|a: int, b: int|
        0 <= a < b < entry_names(entries).len() implies entry_names(entries)[a] != entry_names(
        entries,
    )[b] by {
        assert(entry_names(entries) == ns);
    }
    assert forall|i: int| 0 <= i < entries.len() implies !existing_patched(
        m1.patch,
        #[trigger] entries[i].name,
    ) by {
        assert(entry_names(entries)[i] == entries[i].name);
        assert(ns[i] == entries[i].name);
    }
    lemma_add_entries_shape(m1.patch, key, entries);
    let x = add_entries_seq(m1.patch, key, entries);
    assert(mm.patch == x);
    if crate::store::has_origin(m1.patch, key) {
        let a = choose|a: int| 0 <= a < m1.patch.len() && m1.patch[a].origin == key;
        lemma_append_to_key_pointwise(m1.patch, key, entries);
        assert(x.len() == m1.patch.len());
        assert(x.len() > 0);
    } else {
        assert(x.len() == m1.patch.len() + 1);
    }

    // the restore step of the removal
    let r = nonempty_pairs(sort_pairs(origs));
    let mr = spec_restore_versions(mm, r);
    assert(deps_table_of(mm) is Some && cur_deps(mm) == d1);
    lemma_restore_versions_as_seq(mm, r);
    assert(mr == with_deps(mm, set_versions_seq(d1, r)));
    lemma_versions_round_trip(d0, ns, updates);
    assert(set_versions_seq(d1, r) == d0);
    assert(mr == with_deps(mm, d0));
    assert(mr.patch == x);
    assert(crate::store::loaded_state(mr) == Some(st));
    assert(managed_of(mr) =~= seq![key]);
    assert(originals_of(mr) == sort_pairs(origs));

    // the strip step of the removal
    let names = pair_keys(sort_pairs(origs));
    lemma_originals_keys(d0, ns);
    lemma_sort_pairs_distinct(origs);
    assert forall|xk: Seq<char>|
        #[trigger] crate::store::contains_str(names, xk) <==> crate::store::contains_str(
            ns,
            xk,
        ) by {
        lemma_keys_contains(sort_pairs(origs), xk);
        lemma_sort_pairs_lookup(origs, xk);
        lemma_keys_contains(origs, xk);
    }
    assert forall|i: int, j: int|
        0 <= i < m1.patch.len() && 0 <= j < m1.patch[i].entries.len()
        implies !crate::store::contains_str(
        names,
        #[trigger] m1.patch[i].entries[j].name,
    ) by {
        let en = m1.patch[i].entries[j].name;
        if crate::store::contains_str(names, en) {
            let a = choose|a: int| 0 <= a < ns.len() && ns[a] == en;
            assert(crate::store::has_entry(m1.patch[i].entries, en));
            assert(existing_patched(m1.patch, en));
            assert(!existing_patched(m1.patch, ns[a]));
        }
    }
    assert forall|i: int| 0 <= i < entries.len() implies crate::store::contains_str(
        names,
        #[trigger] entries[i].name,
    ) by {
        assert(entry_names(entries)[i] == entries[i].name);
        assert(ns[i] == entries[i].name);
        assert(crate::store::contains_str(ns, entries[i].name));
    }
    let mf = crate::store::spec_remove_managed(mr);
    assert(mf.patch == crate::store::strip_tables(x, seq![key], names)) by {
        assert(managed_of(mr) == seq![key]);
        assert(pair_keys(originals_of(mr)) == names);
    }
    if crate::store::has_origin(m1.patch, key) {
        lemma_strip_append_inverse(m1.patch, key, entries, names);
        assert(mf.patch == m1.patch);
    } else {
        assert(x == m1.patch.push(OriginTableV { origin: key, entries: entries }));
        assert(x.drop_last() =~= m1.patch);
        assert(x.last() == OriginTableV { origin: key, entries: entries });
        lemma_singleton_contains(key, key);
        lemma_strip_entries_all(entries, names);
        lemma_strip_keep(m1.patch, key, names);
        assert(mf.patch == m1.patch);
    }

    // everything else returns too
    assert(mf.workspace_metadata is None && mf.package_metadata is None);
    assert(mf.has_workspace == m1.has_workspace);
    assert(mf.workspace_deps == m1.workspace_deps && mf.package_deps == m1.package_deps) by {
        assert(mr == with_deps(mm, d0));
    }
    assert(mf =~= m1);

    // the self-clean of a later apply runs the same sequence
    assert(crate::patch::spec_self_clean(mm) == m1) by {
        assert(managed_of(mm).len() > 0);
        assert(mr.patch.len() > 0);
    }
}

// ---------------------------------------------------------------------------
// Selection facts
// ---------------------------------------------------------------------------

/// Filtering by pattern keeps a subset of the candidates and their
/// distinctness.
pub proof fn lemma_filter_crates_facts(cs: Seq<CrateInfoV>, p: Seq<char>)
    ensures
        forall|i: int|
            0 <= i < filter_crates(cs, p).len() ==> exists|j: int|
                0 <= j < cs.len() && #[trigger] filter_crates(cs, p)[i] == cs[j],
        distinct_strs(crate_names(cs)) ==> distinct_strs(crate_names(filter_crates(cs, p))),
    decreases cs.len(),
{
    if cs.len() > 0 {
        lemma_filter_crates_facts(cs.drop_last(), p);
        let rest = filter_crates(cs.drop_last(), p);
        assert forall|i: int|
            0 <= i < filter_crates(cs, p).len() implies exists|j: int|
            0 <= j < cs.len() && #[trigger] filter_crates(cs, p)[i] == cs[j] by {
            if i < rest.len() {
                assert(filter_crates(cs, p)[i] == rest[i]);
                let j = choose|j: int| 0 <= j < cs.drop_last().len() && rest[i] == cs.drop_last()[j];
                assert(filter_crates(cs, p)[i] == cs[j]);
            } else {
                assert(filter_crates(cs, p)[i] == cs.last());
                assert(filter_crates(cs, p)[i] == cs[cs.len() - 1]);
            }
        }
        if distinct_strs(crate_names(cs)) {
            assert forall|a: int, b: int|
                0 <= a < b < cs.drop_last().len() implies crate_names(cs.drop_last())[a]
                != crate_names(cs.drop_last())[b] by {
                assert(crate_names(cs.drop_last())[a] == cs[a].name);
                assert(crate_names(cs.drop_last())[b] == cs[b].name);
                assert(crate_names(cs)[a] == cs[a].name);
                assert(crate_names(cs)[b] == cs[b].name);
            }
            let out = filter_crates(cs, p);
            assert forall|a: int, b: int|
                0 <= a < b < out.len() implies crate_names(out)[a] != crate_names(out)[b] by {
                assert(crate_names(out)[a] == out[a].name);
                assert(crate_names(out)[b] == out[b].name);
                let ja = choose|j: int| 0 <= j < cs.len() && out[a] == cs[j];
                let jb = choose|j: int| 0 <= j < cs.len() && out[b] == cs[j];
                if b < rest.len() {
                    assert(crate_names(rest)[a] == rest[a].name);
                    assert(crate_names(rest)[b] == rest[b].name);
                } else {
                    // the last element's name is new among the earlier ones
                    assert(out[b] == cs.last());
                    assert(crate_names(rest)[a] == rest[a].name);
                    assert(crate_names(cs)[ja] == cs[ja].name);
                    assert(crate_names(cs)[cs.len() - 1] == cs.last().name);
                    if ja == cs.len() - 1 {
                        // out[a] is from the filtered prefix, so it came
                        // from the prefix of cs
                        let ka = choose|j: int|
                            0 <= j < cs.drop_last().len() && rest[a] == cs.drop_last()[j];
                        assert(crate_names(cs)[ka] == cs[ka].name);
                        assert(cs[ka].name != cs.last().name || ka == cs.len() - 1);
                    }
                }
            }
        }
    }
}

/// Intersection keeps declared crates only, still distinct.
pub proof fn lemma_intersect_crates_facts(cs: Seq<CrateInfoV>, deps: Seq<DepEntryV>)
    ensures
        forall|i: int|
            0 <= i < intersect_crates(cs, deps).len() ==> exists|j: int|
                0 <= j < cs.len() && #[trigger] intersect_crates(cs, deps)[i] == cs[j],
        forall|i: int|
            0 <= i < intersect_crates(cs, deps).len() ==> crate::manifest::has_dep(
                deps,
                (#[trigger] intersect_crates(cs, deps)[i]).name,
            ),
        distinct_strs(crate_names(cs)) ==> distinct_strs(crate_names(intersect_crates(cs, deps))),
    decreases cs.len(),
{
    if cs.len() > 0 {
        lemma_intersect_crates_facts(cs.drop_last(), deps);
        let rest = intersect_crates(cs.drop_last(), deps);
        let out = intersect_crates(cs, deps);
        assert forall|i: int|
            0 <= i < out.len() implies exists|j: int|
            0 <= j < cs.len() && #[trigger] out[i] == cs[j] by {
            if i < rest.len() {
                assert(out[i] == rest[i]);
                let j = choose|j: int| 0 <= j < cs.drop_last().len() && rest[i] == cs.drop_last()[j];
                assert(out[i] == cs[j]);
            } else {
                assert(out[i] == cs[cs.len() - 1]);
            }
        }
        assert forall|i: int| 0 <= i < out.len() implies crate::manifest::has_dep(
            deps,
            (#[trigger] out[i]).name,
        ) by {
            if i < rest.len() {
                assert(out[i] == rest[i]);
            } else {
                assert(out[i] == cs.last());
            }
        }
        if distinct_strs(crate_names(cs)) {
            assert forall|a: int, b: int|
                0 <= a < b < cs.drop_last().len() implies crate_names(cs.drop_last())[a]
                != crate_names(cs.drop_last())[b] by {
                assert(crate_names(cs.drop_last())[a] == cs[a].name);
                assert(crate_names(cs.drop_last())[b] == cs[b].name);
                assert(crate_names(cs)[a] == cs[a].name);
                assert(crate_names(cs)[b] == cs[b].name);
            }
            assert forall|a: int, b: int|
                0 <= a < b < out.len() implies crate_names(out)[a] != crate_names(out)[b] by {
                assert(crate_names(out)[a] == out[a].name);
                assert(crate_names(out)[b] == out[b].name);
                if b < rest.len() {
                    assert(crate_names(rest)[a] == rest[a].name);
                    assert(crate_names(rest)[b] == rest[b].name);
                } else {
                    assert(out[b] == cs.last());
                    assert(crate_names(rest)[a] == rest[a].name);
                    let ka = choose|j: int|
                        0 <= j < cs.drop_last().len() && rest[a] == cs.drop_last()[j];
                    assert(crate_names(cs)[ka] == cs[ka].name);
                    assert(crate_names(cs)[cs.len() - 1] == cs.last().name);
                }
            }
        }
    }
}

/// The foreign-entry guard keeps exactly the unpatched candidates, still
/// distinct.
pub proof fn lemma_surviving_crates_facts(cs: Seq<CrateInfoV>, patch: Seq<OriginTableV>)
    ensures
        forall|i: int|
            0 <= i < surviving_crates(cs, patch).len() ==> exists|j: int|
                0 <= j < cs.len() && #[trigger] surviving_crates(cs, patch)[i] == cs[j],
        forall|i: int|
            0 <= i < surviving_crates(cs, patch).len() ==> !existing_patched(
                patch,
                (#[trigger] surviving_crates(cs, patch)[i]).name,
            ),
        distinct_strs(crate_names(cs)) ==> distinct_strs(
            crate_names(surviving_crates(cs, patch)),
        ),
    decreases cs.len(),
{
    if cs.len() > 0 {
        lemma_surviving_crates_facts(cs.drop_last(), patch);
        let rest = surviving_crates(cs.drop_last(), patch);
        let out = surviving_crates(cs, patch);
        assert forall|i: int|
            0 <= i < out.len() implies exists|j: int|
            0 <= j < cs.len() && #[trigger] out[i] == cs[j] by {
            if i < rest.len() {
                assert(out[i] == rest[i]);
                let j = choose|j: int| 0 <= j < cs.drop_last().len() && rest[i] == cs.drop_last()[j];
                assert(out[i] == cs[j]);
            } else {
                assert(out[i] == cs[cs.len() - 1]);
            }
        }
        assert forall|i: int| 0 <= i < out.len() implies !existing_patched(
            patch,
            (#[trigger] out[i]).name,
        ) by {
            if i < rest.len() {
                assert(out[i] == rest[i]);
            } else {
                assert(out[i] == cs.last());
            }
        }
        if distinct_strs(crate_names(cs)) {
            assert forall|a: int, b: int|
                0 <= a < b < cs.drop_last().len() implies crate_names(cs.drop_last())[a]
                != crate_names(cs.drop_last())[b] by {
                assert(crate_names(cs.drop_last())[a] == cs[a].name);
                assert(crate_names(cs.drop_last())[b] == cs[b].name);
                assert(crate_names(cs)[a] == cs[a].name);
                assert(crate_names(cs)[b] == cs[b].name);
            }
            assert forall|a: int, b: int|
                0 <= a < b < out.len() implies crate_names(out)[a] != crate_names(out)[b] by {
                assert(crate_names(out)[a] == out[a].name);
                assert(crate_names(out)[b] == out[b].name);
                if b < rest.len() {
                    assert(crate_names(rest)[a] == rest[a].name);
                    assert(crate_names(rest)[b] == rest[b].name);
                } else {
                    assert(out[b] == cs.last());
                    assert(crate_names(rest)[a] == rest[a].name);
                    let ka = choose|j: int|
                        0 <= j < cs.drop_last().len() && rest[a] == cs.drop_last()[j];
                    assert(crate_names(cs)[ka] == cs[ka].name);
                    assert(crate_names(cs)[cs.len() - 1] == cs.last().name);
                }
            }
        }
    }
}

/// The version updates touch exactly the candidates with a non-empty
/// declared version, each once.
pub proof fn lemma_updates_for_facts(deps: Seq<DepEntryV>, cs: Seq<CrateInfoV>, k: Seq<char>)
    requires
        distinct_strs(crate_names(cs)),
    ensures
        distinct_strs(pair_keys(updates_for(deps, cs))),
        has_pair_key(updates_for(deps, cs), k) <==> (crate::store::contains_str(crate_names(cs), k)
            && version_or_empty(deps, k).len() > 0),
    decreases cs.len(),
{
    let out = updates_for(deps, cs);
    if cs.len() == 0 {
        lemma_pair_lookup_exists(out, k);
    } else {
        let init = cs.drop_last();
        let last = cs.last();
        assert forall|a: int, b: int|
            0 <= a < b < init.len() implies crate_names(init)[a] != crate_names(init)[b] by {
            assert(crate_names(init)[a] == cs[a].name);
            assert(crate_names(init)[b] == cs[b].name);
            assert(crate_names(cs)[a] == cs[a].name);
            assert(crate_names(cs)[b] == cs[b].name);
        }
        lemma_updates_for_facts(deps, init, k);
        lemma_updates_for_facts(deps, init, last.name);
        let rest = updates_for(deps, init);
        assert forall|a: int| 0 <= a < init.len() implies init[a].name != last.name by {
            assert(crate_names(cs)[a] == cs[a].name);
            assert(crate_names(cs)[cs.len() - 1] == last.name);
        }
        assert(!crate::store::contains_str(crate_names(init), last.name)) by {
            if crate::store::contains_str(crate_names(init), last.name) {
                let a = choose|a: int|
                    0 <= a < crate_names(init).len() && crate_names(init)[a] == last.name;
                assert(crate_names(init)[a] == init[a].name);
            }
        }
        if version_or_empty(deps, last.name).len() > 0 {
            lemma_pair_lookup_push(rest, (last.name, last.version), k);
            // distinctness of the extended key list
            let outk = pair_keys(out);
            assert forall|a: int, b: int| 0 <= a < b < outk.len() implies outk[a] != outk[b] by {
                assert(outk[a] == out[a].0);
                assert(outk[b] == out[b].0);
                if b < rest.len() {
                    assert(pair_keys(rest)[a] == rest[a].0);
                    assert(pair_keys(rest)[b] == rest[b].0);
                } else {
                    assert(out[b] == (last.name, last.version));
                    assert(pair_keys(rest)[a] == rest[a].0);
                    assert(!has_pair_key(rest, last.name));
                    lemma_pair_lookup_exists(rest, last.name);
                }
            }
        }
        // membership in the extended name list
        assert forall|x: Seq<char>|
            crate::store::contains_str(crate_names(cs), x) <==> (crate::store::contains_str(
                crate_names(init),
                x,
            ) || x == last.name) by {
            if crate::store::contains_str(crate_names(cs), x) {
                let a = choose|a: int|
                    0 <= a < crate_names(cs).len() && crate_names(cs)[a] == x;
                assert(crate_names(cs)[a] == cs[a].name);
                if a < cs.len() - 1 {
                    assert(crate_names(init)[a] == cs[a].name);
                }
            }
            if crate::store::contains_str(crate_names(init), x) {
                let a = choose|a: int|
                    0 <= a < crate_names(init).len() && crate_names(init)[a] == x;
                assert(crate_names(init)[a] == init[a].name);
                assert(crate_names(cs)[a] == cs[a].name);
            }
            if x == last.name {
                assert(crate_names(cs)[cs.len() - 1] == last.name);
            }
        }
    }
}

/// The path entries carry exactly the candidate names.
pub proof fn lemma_local_entries_names(cs: Seq<CrateInfoV>)
    ensures
        entry_names(local_entries(cs)) == crate_names(cs),
{
    assert forall|i: int|
        0 <= i < cs.len() implies entry_names(local_entries(cs))[i] == crate_names(cs)[i] by {
        assert(local_entries(cs)[i] == PatchEntryV {
            name: cs[i].name,
            target: crate::manifest::PatchTargetV::Path {
                path: crate::cargo_ops::parent_dir(cs[i].manifest_path),
            },
        });
        assert(crate_names(cs)[i] == cs[i].name);
    }
    assert(entry_names(local_entries(cs)) =~= crate_names(cs));
}

// ---------------------------------------------------------------------------
// The laws
// ---------------------------------------------------------------------------

/// The whole local-path apply as one function of the manifest, the
/// offered workspace crates, the pattern, and the chosen origin key:
/// exactly what `apply_patches` promises to compute on a manifest the
/// self-clean step has passed over.
pub open spec fn spec_apply_local_outcome(
    m1: ManifestV,
    crs: Seq<CrateInfoV>,
    pattern: Option<Seq<char>>,
    key: Seq<char>,
) -> ManifestV {
    let filtered = match pattern {
        None => crs,
        Some(p) => filter_crates(crs, p),
    };
    let cands = intersect_crates(filtered, cur_deps(m1));
    let survivors = surviving_crates(cands, m1.patch);
    if survivors.len() == 0 {
        m1
    } else {
        spec_apply_mutation(
            m1,
            originals_for(cur_deps(m1), crate_names(survivors)),
            updates_for(cur_deps(m1), survivors),
            key,
            local_entries(survivors),
        )
    }
}

/// The surviving candidates of the local pipeline.
pub open spec fn spec_local_survivors(
    m1: ManifestV,
    crs: Seq<CrateInfoV>,
    pattern: Option<Seq<char>>,
) -> Seq<CrateInfoV> {
    let filtered = match pattern {
        None => crs,
        Some(p) => filter_crates(crs, p),
    };
    surviving_crates(intersect_crates(filtered, cur_deps(m1)), m1.patch)
}

/// The pipeline's own selection satisfies everything the reversibility
/// law asks of a selection.
pub proof fn lemma_pipeline_selection_ok(
    m1: ManifestV,
    crs: Seq<CrateInfoV>,
    pattern: Option<Seq<char>>,
    key: Seq<char>,
)
    requires
        law_manifest_ok(m1, key),
        distinct_strs(crate_names(crs)),
        spec_local_survivors(m1, crs, pattern).len() > 0,
    ensures
        ({
            let survivors = spec_local_survivors(m1, crs, pattern);
            law_selection_ok(
                m1,
                crate_names(survivors),
                updates_for(cur_deps(m1), survivors),
                local_entries(survivors),
            )
        }),
{
    let filtered = match pattern {
        None => crs,
        Some(p) => filter_crates(crs, p),
    };
    let cands = intersect_crates(filtered, cur_deps(m1));
    let survivors = surviving_crates(cands, m1.patch);
    let ns = crate_names(survivors);
    if pattern is Some {
        lemma_filter_crates_facts(crs, pattern->Some_0);
    }
    lemma_intersect_crates_facts(filtered, cur_deps(m1));
    lemma_surviving_crates_facts(cands, m1.patch);
    assert(distinct_strs(crate_names(filtered)));
    assert(distinct_strs(crate_names(cands)));
    assert(distinct_strs(ns));
    lemma_local_entries_names(survivors);
    lemma_updates_for_facts(cur_deps(m1), survivors, ns[0]);
    assert forall|i: int| 0 <= i < ns.len() implies !existing_patched(
        m1.patch,
        #[trigger] ns[i],
    ) by {
        assert(ns[i] == survivors[i].name);
    }
    assert forall|k: Seq<char>| #[trigger] has_pair_key(
        updates_for(cur_deps(m1), survivors),
        k,
    ) <==> (crate::store::contains_str(ns, k) && version_or_empty(cur_deps(m1), k).len()
        > 0) by {
        lemma_updates_for_facts(cur_deps(m1), survivors, k);
    }
}

/// ROUND-TRIP: on a manifest that holds no managed state, applying and
/// then removing restores the dependency table, the patch section and the
/// metadata to exactly their pre-apply values.
pub proof fn lemma_apply_remove_round_trip(
    m1: ManifestV,
    crs: Seq<CrateInfoV>,
    pattern: Option<Seq<char>>,
    key: Seq<char>,
)
    requires
        law_manifest_ok(m1, key),
        distinct_strs(crate_names(crs)),
        spec_local_survivors(m1, crs, pattern).len() > 0,
    ensures
        ({
            let mm = spec_apply_local_outcome(m1, crs, pattern, key);
            &&& managed_of(mm).len() > 0
            &&& mm.patch.len() > 0
            &&& crate::store::spec_remove_managed(
                spec_restore_versions(mm, nonempty_pairs(originals_of(mm))),
            ) == m1
        }),
{
    let survivors = spec_local_survivors(m1, crs, pattern);
    lemma_pipeline_selection_ok(m1, crs, pattern, key);
    lemma_apply_clean_inverse(
        m1,
        crate_names(survivors),
        updates_for(cur_deps(m1), survivors),
        key,
        local_entries(survivors),
    );
}

/// IDEMPOTENCE: applying twice with the same source and pattern yields
/// the very manifest a single apply yields; the self-clean step converges
/// instead of accumulating.
pub proof fn lemma_apply_idempotent(
    m1: ManifestV,
    crs: Seq<CrateInfoV>,
    pattern: Option<Seq<char>>,
    key: Seq<char>,
)
    requires
        law_manifest_ok(m1, key),
        distinct_strs(crate_names(crs)),
    ensures
        crate::patch::spec_self_clean(spec_apply_local_outcome(m1, crs, pattern, key)) == m1,
        spec_apply_local_outcome(
            crate::patch::spec_self_clean(spec_apply_local_outcome(m1, crs, pattern, key)),
            crs,
            pattern,
            key,
        ) == spec_apply_local_outcome(m1, crs, pattern, key),
{
    let survivors = spec_local_survivors(m1, crs, pattern);
    if survivors.len() == 0 {
        assert(spec_apply_local_outcome(m1, crs, pattern, key) == m1);
        assert(managed_of(m1).len() == 0);
        assert(crate::patch::spec_self_clean(m1) == m1);
    } else {
        lemma_pipeline_selection_ok(m1, crs, pattern, key);
        lemma_apply_clean_inverse(
            m1,
            crate_names(survivors),
            updates_for(cur_deps(m1), survivors),
            key,
            local_entries(survivors),
        );
    }
}

/// PRUNING / CONVERGENCE: re-applying with another (for instance a
/// narrower) pattern gives exactly the manifest a single apply with that
/// pattern gives: the crates no longer matched are removed from the patch
/// table and the recorded state, their versions restored, and nothing
/// else changes.
pub proof fn lemma_reapply_converges(
    m1: ManifestV,
    crs: Seq<CrateInfoV>,
    first_pattern: Option<Seq<char>>,
    second_pattern: Option<Seq<char>>,
    key1: Seq<char>,
    key2: Seq<char>,
)
    requires
        law_manifest_ok(m1, key1),
        distinct_strs(crate_names(crs)),
    ensures
        spec_apply_local_outcome(
            crate::patch::spec_self_clean(
                spec_apply_local_outcome(m1, crs, first_pattern, key1),
            ),
            crs,
            second_pattern,
            key2,
        ) == spec_apply_local_outcome(m1, crs, second_pattern, key2),
{
    lemma_apply_idempotent(m1, crs, first_pattern, key1);
}

/// NON-INTERFERENCE (apply side): every pre-existing patch entry is still
/// there after an apply, in the same table at the same place, whatever it
/// holds — applying only ever appends.
pub proof fn lemma_apply_preserves_entries(
    m1: ManifestV,
    ns: Seq<Seq<char>>,
    updates: Seq<(Seq<char>, Seq<char>)>,
    key: Seq<char>,
    entries: Seq<PatchEntryV>,
)
    requires
        law_manifest_ok(m1, key),
        law_selection_ok(m1, ns, updates, entries),
    ensures
        ({
            let mm = spec_apply_mutation(
                m1,
                originals_for(cur_deps(m1), ns),
                updates,
                key,
                entries,
            );
            &&& mm.patch.len() >= m1.patch.len()
            &&& forall|ti: int|
                0 <= ti < m1.patch.len() ==> (#[trigger] mm.patch[ti]).origin
                    == m1.patch[ti].origin
            &&& forall|ti: int, j: int|
                0 <= ti < m1.patch.len() && 0 <= j < m1.patch[ti].entries.len()
                    ==> mm.patch[ti].entries[j] == #[trigger] m1.patch[ti].entries[j]
        }),
{
    let origs = originals_for(cur_deps(m1), ns);
    let mm = spec_apply_mutation(m1, origs, updates, key, entries);
    let mu = spec_restore_versions(m1, updates);
    lemma_restore_versions_as_seq(m1, updates);
    let ms = crate::store::spec_store_originals(mu, origs);
    let ma = crate::store::spec_add_managed(ms, key);
    assert(ma.patch == m1.patch);
    lemma_add_entries_as_seq(ma, key, entries);
    assert(mm.patch == add_entries_seq(m1.patch, key, entries));
    assert forall|a: int, b: int|
        0 <= a < b < entry_names(entries).len() implies entry_names(entries)[a] != entry_names(
        entries,
    )[b] by {
        assert(entry_names(entries) == ns);
    }
    assert forall|i: int| 0 <= i < entries.len() implies !existing_patched(
        m1.patch,
        #[trigger] entries[i].name,
    ) by {
        assert(entry_names(entries)[i] == entries[i].name);
        assert(ns[i] == entries[i].name);
    }
    lemma_add_entries_shape(m1.patch, key, entries);
    if crate::store::has_origin(m1.patch, key) {
        lemma_append_to_key_pointwise(m1.patch, key, entries);
        assert forall|ti: int, j: int|
            0 <= ti < m1.patch.len() && 0 <= j < m1.patch[ti].entries.len()
            implies mm.patch[ti].entries[j] == #[trigger] m1.patch[ti].entries[j] by {
            if m1.patch[ti].origin == key {
                assert(mm.patch[ti].entries == m1.patch[ti].entries + entries);
                assert((m1.patch[ti].entries + entries)[j] == m1.patch[ti].entries[j]);
            }
        }
    } else {
        assert forall|ti: int|
            0 <= ti < m1.patch.len() implies (#[trigger] mm.patch[ti]) == m1.patch[ti] by {}
    }
}

/// FOREIGN-ENTRY GUARD: a crate that already has a patch entry anywhere
/// is not among the survivors, so it is neither recorded in the fresh
/// managed state nor given a new entry; its entry survives per the
/// non-interference law.
pub proof fn lemma_foreign_entry_guard(
    m1: ManifestV,
    crs: Seq<CrateInfoV>,
    pattern: Option<Seq<char>>,
    key: Seq<char>,
    n: Seq<char>,
)
    requires
        law_manifest_ok(m1, key),
        distinct_strs(crate_names(crs)),
        existing_patched(m1.patch, n),
    ensures
        !crate::store::contains_str(
            crate_names(spec_local_survivors(m1, crs, pattern)),
            n,
        ),
        !has_pair_key(
            originals_of(spec_apply_local_outcome(m1, crs, pattern, key)),
            n,
        ),
{
    let filtered = match pattern {
        None => crs,
        Some(p) => filter_crates(crs, p),
    };
    let cands = intersect_crates(filtered, cur_deps(m1));
    let survivors = surviving_crates(cands, m1.patch);
    let ns = crate_names(survivors);
    lemma_surviving_crates_facts(cands, m1.patch);
    assert(!crate::store::contains_str(ns, n)) by {
        if crate::store::contains_str(ns, n) {
            let i = choose|i: int| 0 <= i < ns.len() && ns[i] == n;
            assert(ns[i] == survivors[i].name);
            assert(!existing_patched(m1.patch, survivors[i].name));
        }
    }
    if survivors.len() == 0 {
        assert(spec_apply_local_outcome(m1, crs, pattern, key) == m1);
        assert(originals_of(m1) =~= Seq::<(Seq<char>, Seq<char>)>::empty());
        lemma_pair_lookup_exists(originals_of(m1), n);
    } else {
        lemma_pipeline_selection_ok(m1, crs, pattern, key);
        lemma_apply_clean_inverse(
            m1,
            ns,
            updates_for(cur_deps(m1), survivors),
            key,
            local_entries(survivors),
        );
        let origs = originals_for(cur_deps(m1), ns);
        let mm = spec_apply_local_outcome(m1, crs, pattern, key);
        assert(originals_of(mm) == sort_pairs(origs));
        lemma_originals_keys(cur_deps(m1), ns);
        lemma_sort_pairs_lookup(origs, n);
        lemma_originals_lookup(cur_deps(m1), ns, n);
        assert(!crate::store::contains_str(ns, n));
    }
}

/// An entry whose name is not stripped is still in the stripped entries.
proof fn lemma_strip_entries_member(es: Seq<PatchEntryV>, names: Seq<Seq<char>>, j: int)
    requires
        0 <= j < es.len(),
        !crate::store::contains_str(names, es[j].name),
    ensures
        exists|j2: int|
            0 <= j2 < crate::store::strip_entries(es, names).len()
                && #[trigger] crate::store::strip_entries(es, names)[j2] == es[j],
    decreases es.len(),
{
    let out = crate::store::strip_entries(es, names);
    let rest = crate::store::strip_entries(es.drop_last(), names);
    if j == es.len() - 1 {
        assert(out[rest.len() as int] == es[j]);
    } else {
        assert(es.drop_last()[j] == es[j]);
        lemma_strip_entries_member(es.drop_last(), names, j);
        let j2 = choose|j2: int| 0 <= j2 < rest.len() && #[trigger] rest[j2] == es[j];
        assert(out[j2] == es[j]);
    }
}

/// A table's unstripped entry is still in the stripped patch section,
/// under the same origin.
proof fn lemma_strip_tables_member(
    ts: Seq<OriginTableV>,
    managed: Seq<Seq<char>>,
    names: Seq<Seq<char>>,
    ti: int,
    j: int,
)
    requires
        0 <= ti < ts.len(),
        0 <= j < ts[ti].entries.len(),
        !crate::store::contains_str(names, ts[ti].entries[j].name),
    ensures
        exists|ti2: int, j2: int|
            0 <= ti2 < crate::store::strip_tables(ts, managed, names).len() && 0 <= j2
                < crate::store::strip_tables(ts, managed, names)[ti2].entries.len()
                && crate::store::strip_tables(ts, managed, names)[ti2].origin == ts[ti].origin
                && #[trigger] crate::store::strip_tables(ts, managed, names)[ti2].entries[j2]
                == ts[ti].entries[j],
    decreases ts.len(),
{
    let out = crate::store::strip_tables(ts, managed, names);
    let rest = crate::store::strip_tables(ts.drop_last(), managed, names);
    let last = ts.last();
    if ti == ts.len() - 1 {
        if crate::store::contains_str(managed, last.origin) {
            let stripped = crate::store::strip_entries(last.entries, names);
            lemma_strip_entries_member(last.entries, names, j);
            let j2 = choose|j2: int|
                0 <= j2 < stripped.len() && #[trigger] stripped[j2] == last.entries[j];
            assert(stripped.len() > 0);
            assert(out[rest.len() as int].origin == last.origin);
            assert(out[rest.len() as int].entries[j2] == ts[ti].entries[j]);
        } else {
            assert(out[rest.len() as int] == last);
            assert(out[rest.len() as int].entries[j] == ts[ti].entries[j]);
        }
    } else {
        assert(ts.drop_last()[ti] == ts[ti]);
        lemma_strip_tables_member(ts.drop_last(), managed, names, ti, j);
        let (ti2, j2) = choose|ti2: int, j2: int|
            0 <= ti2 < rest.len() && 0 <= j2 < rest[ti2].entries.len()
                && rest[ti2].origin == ts[ti].origin
                && #[trigger] rest[ti2].entries[j2] == ts[ti].entries[j];
        assert(out[ti2] == rest[ti2]);
    }
}

/// NON-INTERFERENCE (remove side): a patch entry for a crate that the
/// managed state does not record survives a removal exactly, under its
/// origin; a removal only ever strips recorded crates.
pub proof fn lemma_remove_preserves_foreign(m: ManifestV, ti: int, j: int)
    requires
        0 <= ti < m.patch.len(),
        0 <= j < m.patch[ti].entries.len(),
        !crate::store::contains_str(pair_keys(originals_of(m)), m.patch[ti].entries[j].name),
    ensures
        exists|ti2: int, j2: int|
            0 <= ti2 < crate::store::spec_remove_managed(m).patch.len() && 0 <= j2
                < crate::store::spec_remove_managed(m).patch[ti2].entries.len()
                && crate::store::spec_remove_managed(m).patch[ti2].origin == m.patch[ti].origin
                && #[trigger] crate::store::spec_remove_managed(m).patch[ti2].entries[j2]
                == m.patch[ti].entries[j],
{
    lemma_strip_tables_member(m.patch, managed_of(m), pair_keys(originals_of(m)), ti, j);
    let st = crate::store::strip_tables(m.patch, managed_of(m), pair_keys(originals_of(m)));
    assert(crate::store::spec_remove_managed(m).patch == st);
    let (ti2, j2) = choose|ti2: int, j2: int|
        0 <= ti2 < st.len() && 0 <= j2 < st[ti2].entries.len()
            && st[ti2].origin == m.patch[ti].origin
            && #[trigger] st[ti2].entries[j2] == m.patch[ti].entries[j];
    assert(0 <= ti2 < crate::store::spec_remove_managed(m).patch.len() && 0 <= j2
        < crate::store::spec_remove_managed(m).patch[ti2].entries.len()
        && crate::store::spec_remove_managed(m).patch[ti2].origin == m.patch[ti].origin
        && crate::store::spec_remove_managed(m).patch[ti2].entries[j2] == m.patch[ti].entries[j]);
}

/// The git entries carry exactly the candidate names.
pub proof fn lemma_git_entries_names(
    ns: Seq<Seq<char>>,
    url: Seq<char>,
    reference: Option<crate::source::GitReferenceV>,
)
    ensures
        entry_names(crate::patch::git_entries(ns, url, reference)) == ns,
{
    let es = crate::patch::git_entries(ns, url, reference);
    assert forall|i: int| 0 <= i < ns.len() implies entry_names(es)[i] == ns[i] by {
        assert(es[i] == PatchEntryV {
            name: ns[i],
            target: crate::manifest::PatchTargetV::Git { url, reference },
        });
    }
    assert(entry_names(es) =~= ns);
}

/// ROUND-TRIP, git flow: a git apply rewrites no versions, so its restore
/// step is the identity on the dependency table, and removal undoes the
/// whole mutation exactly.
pub proof fn lemma_git_apply_remove_round_trip(
    m1: ManifestV,
    ns: Seq<Seq<char>>,
    url: Seq<char>,
    reference: Option<crate::source::GitReferenceV>,
)
    requires
        law_manifest_ok(m1, "crates-io"@),
        distinct_strs(ns),
        ns.len() > 0,
        forall|i: int| 0 <= i < ns.len() ==> !existing_patched(m1.patch, #[trigger] ns[i]),
    ensures
        ({
            let entries = crate::patch::git_entries(ns, url, reference);
            let mm = spec_apply_mutation(
                m1,
                originals_for(cur_deps(m1), ns),
                Seq::empty(),
                "crates-io"@,
                entries,
            );
            &&& managed_of(mm).len() > 0
            &&& mm.patch.len() > 0
            &&& crate::store::spec_remove_managed(
                spec_restore_versions(mm, nonempty_pairs(originals_of(mm))),
            ) == m1
            &&& crate::patch::spec_self_clean(mm) == m1
        }),
{
    let entries = crate::patch::git_entries(ns, url, reference);
    lemma_git_entries_names(ns, url, reference);
    let nothing = Seq::<(Seq<char>, Seq<char>)>::empty();
    assert(pair_keys(nothing).len() == 0);
    assert forall|k: Seq<char>| #[trigger] has_pair_key(nothing, k) implies (
    crate::store::contains_str(ns, k) && version_or_empty(cur_deps(m1), k).len() > 0) by {
        assert(pair_lookup(nothing, k) is None);
    }
    lemma_apply_clean_inverse(m1, ns, nothing, "crates-io"@, entries);
}

/// A strict majority is unique: two distinct urls cannot both be declared
/// by more than half of the names.
pub proof fn lemma_majority_unique(
    deps: Seq<DepEntryV>,
    ns: Seq<Seq<char>>,
    u1: Seq<char>,
    u2: Seq<char>,
)
    requires
        crate::manifest::git_count(deps, ns, u1) > ns.len() / 2,
        crate::manifest::git_count(deps, ns, u2) > ns.len() / 2,
    ensures
        u1 == u2,
{
    if u1 != u2 {
        lemma_git_count_pair(deps, ns, u1, u2);
    }
}

/// Two distinct urls are declared by disjoint sets of names.
proof fn lemma_git_count_pair(deps: Seq<DepEntryV>, ns: Seq<Seq<char>>, u1: Seq<char>, u2: Seq<char>)
    requires
        u1 != u2,
    ensures
        crate::manifest::git_count(deps, ns, u1) + crate::manifest::git_count(deps, ns, u2)
            <= ns.len(),
    decreases ns.len(),
{
    if ns.len() > 0 {
        lemma_git_count_pair(deps, ns.skip(1), u1, u2);
    }
}

} // verus!
