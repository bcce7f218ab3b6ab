//! Verified character-level helpers shared by the matcher, the renderer
//! and the tree generator.

use vstd::prelude::*;

verus! {

/// Relies on `String::push`: appends the given character to the end of
/// the string.
#[verifier::external_body]
pub(crate) fn push_char(s: &mut String, c: char)
    ensures
        final(s)@ == old(s)@.push(c),
{
    s.push(c)
}

/// The characters of the string, in order, as a vector.
pub fn chars_of(s: &str) -> (r: Vec<char>)
    ensures
        r@ == s@,
{
    let n = s.unicode_len();
    let mut out: Vec<char> = Vec::new();
    let mut i: usize = 0;
    while i < n
        invariant
            i <= n,
            n as int == s@.len(),
            out@ == s@.subrange(0, i as int),
        decreases n - i,
    {
        let c = s.get_char(i);
        out.push(c);
        proof {
            assert(out@ =~= s@.subrange(0, i as int + 1));
        }
        i = i + 1;
    }
    proof {
        assert(out@ =~= s@);
    }
    out
}

/// The characters, joined back into a string.
pub fn string_of(v: &Vec<char>) -> (r: String)
    ensures
        r@ == v@,
{
    let mut out = String::new();
    let mut i: usize = 0;
    while i < v.len()
        invariant
            i <= v.len(),
            out@ == v@.subrange(0, i as int),
        decreases v.len() - i,
    {
        push_char(&mut out, v[i]);
        proof {
            assert(out@ =~= v@.subrange(0, i as int + 1));
        }
        i = i + 1;
    }
    proof {
        assert(out@ =~= v@);
    }
    out
}

/// The characters of `v` from `from` (inclusive) to `to` (exclusive).
pub fn copy_chars(v: &Vec<char>, from: usize, to: usize) -> (r: Vec<char>)
    requires
        from <= to <= v@.len(),
    ensures
        r@ == v@.subrange(from as int, to as int),
{
    let mut out: Vec<char> = Vec::new();
    let mut i: usize = from;
    while i < to
        invariant
            from <= i <= to <= v@.len(),
            out@ == v@.subrange(from as int, i as int),
        decreases to - i,
    {
        out.push(v[i]);
        proof {
            assert(out@ =~= v@.subrange(from as int, i as int + 1));
        }
        i = i + 1;
    }
    out
}

/// Appends every character of `src` to the end of `dst`.
pub fn append_chars(dst: &mut Vec<char>, src: &Vec<char>)
    ensures
        final(dst)@ == old(dst)@ + src@,
{
    let mut i: usize = 0;
    while i < src.len()
        invariant
            i <= src@.len(),
            dst@ == old(dst)@ + src@.subrange(0, i as int),
        decreases src@.len() - i,
    {
        dst.push(src[i]);
        proof {
            assert(dst@ =~= old(dst)@ + src@.subrange(0, i as int + 1));
        }
        i = i + 1;
    }
    proof {
        assert(dst@ =~= old(dst)@ + src@);
    }
}

/// Whether the two strings hold the same characters.
pub fn str_eq(a: &str, b: &str) -> (r: bool)
    ensures
        r == (a@ == b@),
{
    let na = a.unicode_len();
    let nb = b.unicode_len();
    if na != nb {
        return false;
    }
    let mut i: usize = 0;
    while i < na
        invariant
            i <= na,
            na as int == a@.len(),
            na as int == b@.len(),
            forall|j: int| 0 <= j < i as int ==> a@[j] == b@[j],
        decreases na - i,
    {
        if a.get_char(i) != b.get_char(i) {
            return false;
        }
        i = i + 1;
    }
    proof {
        assert(a@ =~= b@);
    }
    true
}

/// Whether the character occurs in the text.
#[verifier::loop_isolation(false)]
pub fn contains_char(s: &Vec<char>, c: char) -> (r: bool)
    ensures
        r == s@.contains(c),
{
    let mut i: usize = 0;
    while i < s.len()
        invariant
            i <= s@.len(),
            forall|j: int| 0 <= j < i as int ==> s@[j] != c,
        decreases s@.len() - i,
    {
        if s[i] == c {
            return true;
        }
        i = i + 1;
    }
    proof {
        assert(!s@.contains(c));
    }
    false
}

/// Whether `sub` occurs as a contiguous run inside `s`, starting at `i`.
pub open spec fn occurs_at(s: Seq<char>, sub: Seq<char>, i: int) -> bool {
    &&& 0 <= i
    &&& i + sub.len() <= s.len()
    &&& s.subrange(i, i + sub.len() as int) == sub
}

/// Whether `sub` occurs anywhere inside `s`.
pub open spec fn contains_sub(s: Seq<char>, sub: Seq<char>) -> bool {
    exists|i: int| occurs_at(s, sub, i)
}

/// Whether the substring occurs anywhere in the text.
pub fn find_sub(text: &Vec<char>, sub: &Vec<char>) -> (r: bool)
    ensures
        r == contains_sub(text@, sub@),
{
    if sub.len() > text.len() {
        proof {
            assert(forall|i: int| !occurs_at(text@, sub@, i));
        }
        return false;
    }
    if sub.len() == 0 {
        proof {
            assert(text@.subrange(0, 0) =~= sub@);
            assert(occurs_at(text@, sub@, 0));
        }
        return true;
    }
    let mut i: usize = 0;
    let last = text.len() - sub.len();
    while i <= last
        invariant
            0 < sub@.len() <= text@.len(),
            text@.len() <= usize::MAX,
            last as int == text@.len() - sub@.len(),
            i <= last + 1,
            forall|k: int| 0 <= k < i as int ==> !occurs_at(text@, sub@, k),
        decreases last - i + 1,
    {
        let mut j: usize = 0;
        let mut all: bool = true;
        while j < sub.len()
            invariant
                i <= last,
                text@.len() <= usize::MAX,
                last as int == text@.len() - sub@.len(),
                j <= sub.len(),
                all == (forall|k: int| 0 <= k < j as int ==> text@[i as int + k] == sub@[k]),
            decreases sub.len() - j,
        {
            if text[i + j] != sub[j] {
                all = false;
            }
            j = j + 1;
        }
        if all {
            proof {
                assert(text@.subrange(i as int, i as int + sub@.len() as int) =~= sub@);
                assert(occurs_at(text@, sub@, i as int));
            }
            return true;
        }
        proof {
            assert(!occurs_at(text@, sub@, i as int)) by {
                if occurs_at(text@, sub@, i as int) {
                    let w = choose|w: int|
                        0 <= w < sub@.len() && text@[i as int + w] != sub@[w];
                    assert(text@.subrange(i as int, i as int + sub@.len() as int)[w]
                        == text@[i as int + w]);
                }
            }
        }
        i = i + 1;
    }
    proof {
        assert(forall|k: int| !occurs_at(text@, sub@, k));
    }
    false
}

} // verus!
