//! The pattern matcher: tests a path against shell-glob patterns.
//! `*` matches any run of characters, `?` one character, and a bracket
//! class one character out of its members and ranges (`!` first negates).
//! Matching is case-sensitive and no path separator is implicit. A
//! pattern whose bracket class never closes does not parse, and an
//! unparsable pattern matches nothing.

use vstd::prelude::*;

use crate::strutil::chars_of;

verus! {

/// The members of a bracket class read from `i`, and the position of the
/// closing bracket; nothing when the class never closes. A `]` directly
/// after the opening (or the negation mark) is an ordinary member, and
/// `a-b` is the range of characters from `a` to `b`.
pub open spec fn parse_class_members(p: Seq<char>, i: int, first: bool) -> Option<
    (Seq<(char, char)>, int),
>
    decreases p.len() - i,
{
    if i < 0 || i >= p.len() {
        None
    } else if p[i] == ']' && !first {
        Some((Seq::empty(), i))
    } else if i + 2 < p.len() && p[i + 1] == '-' && p[i + 2] != ']' {
        match parse_class_members(p, i + 3, false) {
            None => None,
            Some((rs, e)) => Some((seq![(p[i], p[i + 2])] + rs, e)),
        }
    } else {
        match parse_class_members(p, i + 1, false) {
            None => None,
            Some((rs, e)) => Some((seq![(p[i], p[i])] + rs, e)),
        }
    }
}

/// A parsed class ends at its closing bracket, inside the pattern.
pub proof fn lemma_class_bounds(p: Seq<char>, i: int, first: bool)
    requires
        parse_class_members(p, i, first) is Some,
    ensures
        ({
            let e = parse_class_members(p, i, first)->0;
            i <= e.1 < p.len()
        }),
    decreases p.len() - i,
{
    if !(i < 0 || i >= p.len()) && !(p[i] == ']' && !first) {
        if i + 2 < p.len() && p[i + 1] == '-' && p[i + 2] != ']' {
            lemma_class_bounds(p, i + 3, false);
        } else {
            lemma_class_bounds(p, i + 1, false);
        }
    }
}

/// Whether the character falls in one of the class's ranges.
pub open spec fn class_has(rs: Seq<(char, char)>, c: char) -> bool {
    exists|i: int|
        0 <= i < rs.len() && ((#[trigger] rs[i]).0 as u32) <= (c as u32) && (c as u32) <= (
        rs[i].1 as u32)
}

/// Whether the pattern from `pi` matches the text from `si` to its end.
/// A star matches any run of characters; a question mark one character; a
/// bracket class one character out of its members; anything else stands
/// for itself. A bracket that never closes makes the pattern unparsable,
/// and an unparsable pattern matches nothing.
pub open spec fn fn_match_at(p: Seq<char>, pi: int, t: Seq<char>, si: int) -> bool
    decreases p.len() - pi, t.len() - si,
{
    if pi < 0 || si < 0 {
        false
    } else if pi >= p.len() {
        si == t.len()
    } else if p[pi] == '*' {
        fn_match_at(p, pi + 1, t, si) || (si < t.len() && fn_match_at(p, pi, t, si + 1))
    } else if p[pi] == '?' {
        si < t.len() && fn_match_at(p, pi + 1, t, si + 1)
    } else if p[pi] == '[' {
        let neg = pi + 1 < p.len() && p[pi + 1] == '!';
        let start = if neg {
            pi + 2
        } else {
            pi + 1
        };
        match parse_class_members(p, start, true) {
            None => false,
            Some((rs, e)) => if pi < e + 1 <= p.len() {
                si < t.len() && (class_has(rs, t[si]) != neg) && fn_match_at(p, e + 1, t, si + 1)
            } else {
                false
            },
        }
    } else {
        si < t.len() && t[si] == p[pi] && fn_match_at(p, pi + 1, t, si + 1)
    }
}

/// Whether the whole pattern matches the whole text.
pub open spec fn glob_matches(pat: Seq<char>, text: Seq<char>) -> bool {
    fn_match_at(pat, 0, text, 0)
}

/// A path is excluded when any pattern of the set matches it.
pub open spec fn spec_is_excluded(path: Seq<char>, pats: Seq<String>) -> bool {
    exists|i: int| 0 <= i < pats.len() && glob_matches((#[trigger] pats[i])@, path)
}

/// The members of a bracket class starting at `i`, and the position of
/// its closing bracket.
fn parse_members_exec(p: &Vec<char>, i: usize, first: bool) -> (r: Option<
    (Vec<(char, char)>, usize),
>)
    requires
        i <= p@.len(),
    ensures
        match r {
            Some(pair) => parse_class_members(p@, i as int, first) == Some(
                (pair.0@, pair.1 as int),
            ),
            None => parse_class_members(p@, i as int, first) is None,
        },
    decreases p@.len() - i,
{
    if i >= p.len() {
        return None;
    }
    if p[i] == ']' && !first {
        let rs: Vec<(char, char)> = Vec::new();
        proof {
            assert(rs@ =~= Seq::<(char, char)>::empty());
        }
        return Some((rs, i));
    }
    if p.len() - i > 2 && p[i + 1] == '-' && p[i + 2] != ']' {
        match parse_members_exec(p, i + 3, false) {
            None => None,
            Some((mut rs, e)) => {
                let ghost pre = rs@;
                rs.insert(0, (p[i], p[i + 2]));
                proof {
                    assert(rs@.drop_first() =~= pre);
                    assert(rs@ =~= seq![(p@[i as int], p@[i as int + 2])] + pre);
                }
                Some((rs, e))
            },
        }
    } else {
        match parse_members_exec(p, i + 1, false) {
            None => None,
            Some((mut rs, e)) => {
                let ghost pre = rs@;
                rs.insert(0, (p[i], p[i]));
                proof {
                    assert(rs@.drop_first() =~= pre);
                    assert(rs@ =~= seq![(p@[i as int], p@[i as int])] + pre);
                }
                Some((rs, e))
            },
        }
    }
}

/// Whether the character falls in one of the class's ranges.
#[verifier::loop_isolation(false)]
fn class_check(rs: &Vec<(char, char)>, c: char) -> (r: bool)
    ensures
        r == class_has(rs@, c),
{
    let mut i: usize = 0;
    while i < rs.len()
        invariant
            i <= rs@.len(),
            forall|j: int| 0 <= j < i as int ==> !(((#[trigger] rs@[j]).0 as u32) <= (c as u32)
                && (c as u32) <= (rs@[j].1 as u32)),
        decreases rs@.len() - i,
    {
        let lo = rs[i].0;
        let hi = rs[i].1;
        if (lo as u32) <= (c as u32) && (c as u32) <= (hi as u32) {
            return true;
        }
        i = i + 1;
    }
    false
}

/// Whether the pattern from `pi` matches the text from `si` to its end.
fn match_at(p: &Vec<char>, pi: usize, t: &Vec<char>, si: usize) -> (r: bool)
    requires
        pi <= p@.len(),
        si <= t@.len(),
    ensures
        r == fn_match_at(p@, pi as int, t@, si as int),
    decreases p@.len() - pi, t@.len() - si,
{
    if pi == p.len() {
        return si == t.len();
    }
    let c = p[pi];
    if c == '*' {
        if match_at(p, pi + 1, t, si) {
            true
        } else if si < t.len() {
            match_at(p, pi, t, si + 1)
        } else {
            false
        }
    } else if c == '?' {
        si < t.len() && match_at(p, pi + 1, t, si + 1)
    } else if c == '[' {
        let neg = pi + 1 < p.len() && p[pi + 1] == '!';
        let start = if neg {
            pi + 2
        } else {
            pi + 1
        };
        match parse_members_exec(p, start, true) {
            None => false,
            Some((rs, e)) => {
                proof {
                    lemma_class_bounds(p@, start as int, true);
                }
                si < t.len() && (class_check(&rs, t[si]) != neg) && match_at(p, e + 1, t, si + 1)
            },
        }
    } else {
        si < t.len() && t[si] == c && match_at(p, pi + 1, t, si + 1)
    }
}

/// Whether the glob pattern matches the whole text; an unparsable
/// pattern matches nothing.
pub fn glob_match(pattern: &str, text: &str) -> (r: bool)
    ensures
        r == glob_matches(pattern@, text@),
{
    let p = chars_of(pattern);
    let t = chars_of(text);
    match_at(&p, 0, &t, 0)
}

/// Whether the path matches any pattern of the set.
#[verifier::loop_isolation(false)]
pub fn is_excluded(path: &str, patterns: &Vec<String>) -> (r: bool)
    ensures
        r == spec_is_excluded(path@, patterns@),
{
    let mut i: usize = 0;
    while i < patterns.len()
        invariant
            i <= patterns@.len(),
            forall|j: int| 0 <= j < i as int ==> !glob_matches((#[trigger] patterns@[j])@, path@),
        decreases patterns@.len() - i,
    {
        if glob_match(patterns[i].as_str(), path) {
            return true;
        }
        i = i + 1;
    }
    false
}

} // verus!
