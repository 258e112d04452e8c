//! The pattern matcher: a restricted glob syntax, anchored to the whole
//! string. `*` matches zero or more characters, `?` matches exactly one,
//! and every other character matches itself.

use vstd::prelude::*;

use crate::strutil::chars_of;

verus! {

/// What it means for a glob pattern `p` to match a name `s` in full:
/// the name must entirely satisfy the pattern, not merely contain a
/// matching substring.
pub open spec fn glob_matches(p: Seq<char>, s: Seq<char>) -> bool
    decreases p.len() + s.len(),
{
    if p.len() == 0 {
        s.len() == 0
    } else if p[0] == '*' {
        glob_matches(p.skip(1), s) || (s.len() > 0 && glob_matches(p, s.skip(1)))
    } else {
        s.len() > 0 && (p[0] == '?' || p[0] == s[0]) && glob_matches(p.skip(1), s.skip(1))
    }
}

/// Decide `glob_matches` on the suffixes of `p` and `s` that start at
/// `pi` and `si`.
fn glob_match_at(p: &Vec<char>, pi: usize, s: &Vec<char>, si: usize) -> (r: bool)
    requires
        pi <= p.len(),
        si <= s.len(),
    ensures
        r == glob_matches(p@.skip(pi as int), s@.skip(si as int)),
    decreases p.len() - pi + s.len() - si,
{
    proof {
        if pi < p.len() {
            assert(p@.skip(pi as int)[0] == p@[pi as int]);
            assert(p@.skip(pi as int).skip(1) =~= p@.skip(pi as int + 1));
        }
        if si < s.len() {
            assert(s@.skip(si as int)[0] == s@[si as int]);
            assert(s@.skip(si as int).skip(1) =~= s@.skip(si as int + 1));
        }
    }
    if pi == p.len() {
        si == s.len()
    } else if p[pi] == '*' {
        if glob_match_at(p, pi + 1, s, si) {
            true
        } else if si < s.len() {
            glob_match_at(p, pi, s, si + 1)
        } else {
            false
        }
    } else if si == s.len() {
        false
    } else {
        (p[pi] == '?' || p[pi] == s[si]) && glob_match_at(p, pi + 1, s, si + 1)
    }
}

/// Decide whether `name` entirely satisfies the glob `pattern`.
pub fn glob_match(pattern: &str, name: &str) -> (r: bool)
    ensures
        r == glob_matches(pattern@, name@),
{
    let p = chars_of(pattern);
    let s = chars_of(name);
    proof {
        assert(p@.skip(0) =~= pattern@);
        assert(s@.skip(0) =~= name@);
    }
    glob_match_at(&p, 0, &s, 0)
}

} // verus!
