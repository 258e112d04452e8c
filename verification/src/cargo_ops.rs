//! Crate candidates offered by a source workspace, and filtering them by
//! pattern.  Querying a workspace for its members is an outside call made
//! by the surrounding program; the selection logic on the returned
//! candidates lives here.

use vstd::prelude::*;

use crate::error::PatchError;
use crate::pattern::{glob_match, glob_matches};

verus! {

/// Information about a crate that can be patched: its name, its current
/// version, and the location of its own manifest.
#[derive(Debug, PartialEq)]
pub struct CrateInfo {
    pub name: String,
    pub version: String,
    pub manifest_path: String,
}

/// The mathematical value of a crate candidate.
#[verifier::ext_equal]
pub struct CrateInfoV {
    pub name: Seq<char>,
    pub version: Seq<char>,
    pub manifest_path: Seq<char>,
}

impl CrateInfo {
    pub open spec fn view(&self) -> CrateInfoV {
        CrateInfoV {
            name: self.name@,
            version: self.version@,
            manifest_path: self.manifest_path@,
        }
    }
}

impl Clone for CrateInfo {
    fn clone(&self) -> (r: Self)
        ensures
            r@ == self@,
    {
        CrateInfo {
            name: self.name.clone(),
            version: self.version.clone(),
            manifest_path: self.manifest_path.clone(),
        }
    }
}

pub open spec fn view_crates(s: Seq<CrateInfo>) -> Seq<CrateInfoV> {
    s.map_values(|c: CrateInfo| c@)
}

/// The candidates whose names entirely satisfy the glob pattern, in order.
pub open spec fn filter_crates(cs: Seq<CrateInfoV>, p: Seq<char>) -> Seq<CrateInfoV>
    decreases cs.len(),
{
    if cs.len() == 0 {
        Seq::empty()
    } else {
        let rest = filter_crates(cs.drop_last(), p);
        if glob_matches(p, cs.last().name) {
            rest.push(cs.last())
        } else {
            rest
        }
    }
}

/// Filter candidates by a glob pattern.  No pattern keeps every candidate;
/// a pattern that matches none is an error.
pub fn filter_crates_by_pattern(crates: Vec<CrateInfo>, pattern: Option<&str>) -> (r: Result<
    Vec<CrateInfo>,
    PatchError,
>)
    ensures
        match pattern {
            None => r is Ok,
            Some(p) => r is Ok <==> filter_crates(view_crates(crates@), p@).len() > 0,
        },
        match r {
            Ok(v) => view_crates(v@) == (match pattern {
                None => view_crates(crates@),
                Some(p) => filter_crates(view_crates(crates@), p@),
            }),
            Err(e) => match e {
                PatchError::NoMatchingCrates { pattern: pt } => pattern is Some && pt@
                    == pattern->Some_0@,
                _ => false,
            },
        },
{
    let p = match pattern {
        None => {
            return Ok(crates);
        },
        Some(p) => p,
    };
    let ghost cv = view_crates(crates@);
    let mut filtered: Vec<CrateInfo> = Vec::new();
    let n = crates.len();
    let mut i: usize = 0;
    proof {
        assert(cv.take(0) =~= Seq::<CrateInfoV>::empty());
    }
    while i < n
        invariant
            i <= n,
            n == crates@.len(),
            view_crates(filtered@) == filter_crates(cv.take(i as int), p@),
        decreases n - i,
    {
        proof {
            assert(cv[i as int] == crates@[i as int]@);
        }
        let ghost before = view_crates(filtered@);
        if glob_match(p, crates[i].name.as_str()) {
            filtered.push(crates[i].clone());
            proof {
                assert(view_crates(filtered@) =~= before.push(cv[i as int]));
            }
        }
        i = i + 1;
        proof {
            assert(cv.take(i as int).drop_last() =~= cv.take(i as int - 1));
            assert(cv.take(i as int).last() == cv[i as int - 1]);
            assert(view_crates(filtered@) =~= filter_crates(cv.take(i as int), p@));
        }
    }
    proof {
        assert(cv.take(n as int) =~= cv);
    }
    if filtered.is_empty() {
        Err(PatchError::NoMatchingCrates { pattern: String::from_str(p) })
    } else {
        Ok(filtered)
    }
}

/// The directory holding a manifest: the characters up to the last `/`,
/// exclusive; a path without one has an empty parent.
pub open spec fn parent_dir(p: Seq<char>) -> Seq<char>
    decreases p.len(),
{
    if p.len() == 0 {
        p
    } else if p.last() == '/' {
        p.drop_last()
    } else {
        parent_dir(p.drop_last())
    }
}

/// The directory holding a manifest.
pub fn parent_dir_of(path: &str) -> (r: String)
    ensures
        r@ == parent_dir(path@),
{
    let chars = crate::strutil::chars_of(path);
    let mut end = chars.len();
    proof {
        assert(path@.take(chars@.len() as int) =~= path@);
    }
    while end > 0
        invariant
            end <= chars@.len(),
            chars@ == path@,
            parent_dir(path@) == parent_dir(path@.take(end as int)),
        decreases end,
    {
        if chars[end - 1] == '/' {
            proof {
                assert(path@.take(end as int).last() == path@[end as int - 1]);
                assert(path@.take(end as int).drop_last() =~= path@.take(end as int - 1));
            }
            let sub = path.substring_char(0, end - 1);
            proof {
                assert(sub@ =~= path@.take(end as int - 1));
            }
            return String::from_str(sub);
        }
        proof {
            assert(path@.take(end as int).last() == path@[end as int - 1]);
            assert(path@.take(end as int).drop_last() =~= path@.take(end as int - 1));
        }
        end = end - 1;
    }
    proof {
        assert(path@.take(0) =~= Seq::<char>::empty());
    }
    String::new()
}

} // verus!
