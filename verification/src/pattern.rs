//! The two wildcard grammars the query facade exposes.
//!
//! Textual filters use a percent/underscore grammar (`%` matches any run of
//! characters, `_` any single character); symbol and label filters use an
//! asterisk/question-mark grammar (`*` any run, `?` any single character).
//! In both, every other character matches itself only. The two grammars are
//! the same matcher with different wildcard characters.

use vstd::prelude::*;

verus! {

/// `p` matches `t`, where `many` matches any run of characters, `one` any
/// single character, and every other pattern character itself.
pub open spec fn wild_matches(p: Seq<char>, t: Seq<char>, many: char, one: char) -> bool
    decreases p.len(), t.len(),
{
    if p.len() == 0 {
        t.len() == 0
    } else if p[0] == many {
        wild_matches(p.skip(1), t, many, one) || (t.len() > 0 && wild_matches(
            p,
            t.skip(1),
            many,
            one,
        ))
    } else if t.len() == 0 {
        false
    } else if p[0] == one || p[0] == t[0] {
        wild_matches(p.skip(1), t.skip(1), many, one)
    } else {
        false
    }
}

/// The percent/underscore grammar, applied to case-folded operands by the
/// queries that use it.
pub open spec fn like_matches(p: Seq<char>, t: Seq<char>) -> bool {
    wild_matches(p, t, '%', '_')
}

/// The asterisk/question-mark grammar; case-sensitive.
pub open spec fn glob_matches(p: Seq<char>, t: Seq<char>) -> bool {
    wild_matches(p, t, '*', '?')
}

fn wild_matches_at(p: &Vec<char>, t: &Vec<char>, pi: usize, ti: usize, many: char, one: char) -> (r:
    bool)
    requires
        pi <= p@.len(),
        ti <= t@.len(),
    ensures
        r == wild_matches(p@.skip(pi as int), t@.skip(ti as int), many, one),
    decreases p@.len() - pi, t@.len() - ti,
{
    let ghost ps = p@.skip(pi as int);
    let ghost ts = t@.skip(ti as int);
    if pi == p.len() {
        return ti == t.len();
    }
    assert(ps[0] == p@[pi as int]);
    assert(p@.skip(pi as int).skip(1) =~= p@.skip(pi as int + 1));
    if p[pi] == many {
        if wild_matches_at(p, t, pi + 1, ti, many, one) {
            return true;
        }
        if ti < t.len() {
            assert(t@.skip(ti as int).skip(1) =~= t@.skip(ti as int + 1));
            return wild_matches_at(p, t, pi, ti + 1, many, one);
        }
        return false;
    }
    if ti == t.len() {
        return false;
    }
    assert(ts[0] == t@[ti as int]);
    assert(t@.skip(ti as int).skip(1) =~= t@.skip(ti as int + 1));
    if p[pi] == one || p[pi] == t[ti] {
        return wild_matches_at(p, t, pi + 1, ti + 1, many, one);
    }
    false
}

/// Whether the percent/underscore pattern `p` matches all of `t`.
pub fn like_matches_exec(p: &Vec<char>, t: &Vec<char>) -> (r: bool)
    ensures
        r == like_matches(p@, t@),
{
    assert(p@.skip(0) =~= p@);
    assert(t@.skip(0) =~= t@);
    wild_matches_at(p, t, 0, 0, '%', '_')
}

/// Whether the asterisk/question-mark pattern `p` matches all of `t`.
pub fn glob_matches_exec(p: &Vec<char>, t: &Vec<char>) -> (r: bool)
    ensures
        r == glob_matches(p@, t@),
{
    assert(p@.skip(0) =~= p@);
    assert(t@.skip(0) =~= t@);
    wild_matches_at(p, t, 0, 0, '*', '?')
}

/// The pattern that the substring-style queries build from a plain filter:
/// the filter bracketed by a leading and a trailing `many` wildcard.
pub open spec fn bracket_pattern(f: Seq<char>, many: char) -> Seq<char> {
    seq![many] + f + seq![many]
}

/// A copy of `f` bracketed by `many` on both sides.
pub fn bracket_pattern_exec(f: &Vec<char>, many: char) -> (r: Vec<char>)
    ensures
        r@ == bracket_pattern(f@, many),
{
    let mut r: Vec<char> = Vec::new();
    r.push(many);
    let mut i: usize = 0;
    while i < f.len()
        invariant
            i <= f@.len(),
            r@ == seq![many] + f@.subrange(0, i as int),
        decreases f@.len() - i,
    {
        r.push(f[i]);
        assert(r@ =~= seq![many] + f@.subrange(0, i + 1 as int));
        i = i + 1;
    }
    assert(f@.subrange(0, f@.len() as int) =~= f@);
    r.push(many);
    assert(r@ =~= bracket_pattern(f@, many));
    r
}

} // verus!
