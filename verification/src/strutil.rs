//! Verified character-level string helpers: equality and lexicographic
//! order on `&str`, specified over their views.

use vstd::prelude::*;

verus! {

/// Strict lexicographic order on character sequences, by code point.
pub open spec fn lex_lt(a: Seq<char>, b: Seq<char>) -> bool
    decreases a.len() + b.len(),
{
    if b.len() == 0 {
        false
    } else if a.len() == 0 {
        true
    } else if a[0] != b[0] {
        (a[0] as u32) < (b[0] as u32)
    } else {
        lex_lt(a.skip(1), b.skip(1))
    }
}

/// Collect the characters of a string slice into a vector.
pub fn chars_of(t: &str) -> (v: Vec<char>)
    ensures
        v@ == t@,
{
    let n = t.unicode_len();
    let mut v: Vec<char> = Vec::new();
    let mut i: usize = 0;
    while i < n
        invariant
            i <= n,
            n == t@.len(),
            v@ == t@.subrange(0, i as int),
        decreases n - i,
    {
        let c = t.get_char(i);
        v.push(c);
        i = i + 1;
        assert(v@ =~= t@.subrange(0, i as int));
    }
    assert(v@ =~= t@);
    v
}

/// Decide whether two string slices hold the same characters.
pub fn str_eq(a: &str, b: &str) -> (r: bool)
    ensures
        r == (a@ == b@),
{
    let an = a.unicode_len();
    let bn = b.unicode_len();
    if an != bn {
        return false;
    }
    let mut i: usize = 0;
    while i < an
        invariant
            i <= an,
            an == a@.len(),
            an == b@.len(),
            forall|j: int| 0 <= j < i ==> a@[j] == b@[j],
        decreases an - i,
    {
        if a.get_char(i) != b.get_char(i) {
            return false;
        }
        i = i + 1;
    }
    proof {
        assert(a@ =~= b@);
    }
    true
}

/// Decide `lex_lt` on the suffixes of `a` and `b` that start at `ai` and
/// `bi`.
fn lex_lt_at(a: &Vec<char>, ai: usize, b: &Vec<char>, bi: usize) -> (r: bool)
    requires
        ai <= a.len(),
        bi <= b.len(),
    ensures
        r == lex_lt(a@.skip(ai as int), b@.skip(bi as int)),
    decreases a.len() - ai,
{
    proof {
        if ai < a.len() {
            assert(a@.skip(ai as int)[0] == a@[ai as int]);
            assert(a@.skip(ai as int).skip(1) =~= a@.skip(ai as int + 1));
        }
        if bi < b.len() {
            assert(b@.skip(bi as int)[0] == b@[bi as int]);
            assert(b@.skip(bi as int).skip(1) =~= b@.skip(bi as int + 1));
        }
    }
    if bi == b.len() {
        false
    } else if ai == a.len() {
        true
    } else if a[ai] != b[bi] {
        (a[ai] as u32) < (b[bi] as u32)
    } else {
        lex_lt_at(a, ai + 1, b, bi + 1)
    }
}

/// Decide whether `a` comes strictly before `b` in lexicographic order.
pub fn str_lt(a: &str, b: &str) -> (r: bool)
    ensures
        r == lex_lt(a@, b@),
{
    let av = chars_of(a);
    let bv = chars_of(b);
    proof {
        assert(av@.skip(0) =~= a@);
        assert(bv@.skip(0) =~= b@);
    }
    lex_lt_at(&av, 0, &bv, 0)
}

} // verus!
