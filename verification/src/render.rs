//! The substitution engine: renders a text template against a context.
//! A placeholder is a double-brace expression naming a context key; the
//! key may carry dots and surrounding spaces. Rendering is pure: the
//! result is a function of the template text and the context alone, and
//! any reference to an undefined key is a render failure.

use vstd::prelude::*;

use crate::context::Context;
use crate::errors::GenerateFilesError;
use crate::strutil::{append_chars, chars_of, copy_chars, string_of};
use crate::value::ValueV;

verus! {

/// A placeholder opens at `i`: two `{` characters stand there.
pub open spec fn is_open_at(t: Seq<char>, i: int) -> bool {
    &&& 0 <= i
    &&& i + 2 <= t.len()
    &&& t[i] == '{'
    &&& t[i + 1] == '{'
}

/// A placeholder closes at `i`: two `}` characters stand there.
pub open spec fn is_close_at(t: Seq<char>, i: int) -> bool {
    &&& 0 <= i
    &&& i + 2 <= t.len()
    &&& t[i] == '}'
    &&& t[i + 1] == '}'
}

/// The first position at or after `from` where a placeholder opens.
pub open spec fn first_open_from(t: Seq<char>, from: int) -> Option<int>
    decreases t.len() - from,
{
    if from < 0 || from + 2 > t.len() {
        None
    } else if is_open_at(t, from) {
        Some(from)
    } else {
        first_open_from(t, from + 1)
    }
}

/// The first position at or after `from` where a placeholder closes.
pub open spec fn first_close_from(t: Seq<char>, from: int) -> Option<int>
    decreases t.len() - from,
{
    if from < 0 || from + 2 > t.len() {
        None
    } else if is_close_at(t, from) {
        Some(from)
    } else {
        first_close_from(t, from + 1)
    }
}

/// A found opening is in range, opens a placeholder, and is the first.
pub proof fn lemma_open_bounds(t: Seq<char>, from: int)
    requires
        first_open_from(t, from) is Some,
    ensures
        from <= first_open_from(t, from)->0,
        is_open_at(t, first_open_from(t, from)->0),
    decreases t.len() - from,
{
    if !(from < 0 || from + 2 > t.len()) && !is_open_at(t, from) {
        lemma_open_bounds(t, from + 1);
    }
}

/// A found closing is in range, closes a placeholder, and is the first.
pub proof fn lemma_close_bounds(t: Seq<char>, from: int)
    requires
        first_close_from(t, from) is Some,
    ensures
        from <= first_close_from(t, from)->0,
        is_close_at(t, first_close_from(t, from)->0),
    decreases t.len() - from,
{
    if !(from < 0 || from + 2 > t.len()) && !is_close_at(t, from) {
        lemma_close_bounds(t, from + 1);
    }
}

/// When no position opens a placeholder, none is found.
pub proof fn lemma_no_open(t: Seq<char>, from: int)
    requires
        forall|i: int| !is_open_at(t, i),
    ensures
        first_open_from(t, from) is None,
    decreases t.len() - from,
{
    if !(from < 0 || from + 2 > t.len()) {
        assert(!is_open_at(t, from));
        lemma_no_open(t, from + 1);
    }
}

/// The text with every leading and trailing space removed.
pub open spec fn trim(s: Seq<char>) -> Seq<char>
    decreases s.len(),
{
    if s.len() > 0 && s[0] == ' ' {
        trim(s.drop_first())
    } else if s.len() > 0 && s.last() == ' ' {
        trim(s.drop_last())
    } else {
        s
    }
}

/// The character for a single decimal digit.
pub open spec fn digit_char(d: int) -> char {
    ((48 + d) as u8) as char
}

/// The decimal digits of a non-negative number, most significant first.
pub open spec fn dec_digits(n: int) -> Seq<char>
    decreases n,
{
    if n < 10 {
        seq![digit_char(n)]
    } else {
        dec_digits(n / 10).push(digit_char(n % 10))
    }
}

/// The decimal text of an integer.
pub open spec fn int_str(i: int) -> Seq<char> {
    if i < 0 {
        seq!['-'] + dec_digits(-i)
    } else {
        dec_digits(i)
    }
}

/// The text a scalar value substitutes; a non-scalar value has none and
/// fails the render.
pub open spec fn scalar_str(v: ValueV) -> Option<Seq<char>> {
    match v {
        ValueV::Str(s) => Some(s),
        ValueV::Bool(b) => Some(
            if b {
                "true"@
            } else {
                "false"@
            },
        ),
        ValueV::Int(i) => Some(int_str(i)),
        _ => None,
    }
}

/// What rendering the template against the context yields: the text with
/// every placeholder replaced by its key's scalar text, or nothing when a
/// placeholder is unterminated, names an absent key, or names a
/// non-scalar value.
pub open spec fn spec_render(t: Seq<char>, c: Map<Seq<char>, ValueV>) -> Option<Seq<char>>
    decreases t.len(),
{
    match first_open_from(t, 0) {
        None => Some(t),
        Some(o) => match first_close_from(t, o + 2) {
            None => None,
            Some(cl) => if 0 <= o && o + 2 <= cl && cl + 2 <= t.len() {
                let key = trim(t.subrange(o + 2, cl));
                if c.contains_key(key) {
                    match scalar_str(c[key]) {
                        None => None,
                        Some(sv) => match spec_render(t.subrange(cl + 2, t.len() as int), c) {
                            None => None,
                            Some(rest) => Some(t.subrange(0, o) + sv + rest),
                        },
                    }
                } else {
                    None
                }
            } else {
                None
            },
        },
    }
}

/// Rendering is deterministic: any two results of rendering the same
/// template against the same context are the same text. `render` pins its
/// result to `spec_render`, so this covers any two of its runs.
pub proof fn lemma_render_deterministic(
    t: Seq<char>,
    c: Map<Seq<char>, ValueV>,
    r1: Seq<char>,
    r2: Seq<char>,
)
    requires
        spec_render(t, c) == Some(r1),
        spec_render(t, c) == Some(r2),
    ensures
        r1 == r2,
{
}

/// A template in which no placeholder opens renders to itself, against
/// every context.
pub proof fn lemma_render_no_placeholders(t: Seq<char>, c: Map<Seq<char>, ValueV>)
    requires
        forall|i: int| !is_open_at(t, i),
    ensures
        spec_render(t, c) == Some(t),
{
    lemma_no_open(t, 0);
}

/// The first position at or after `from` holding two `{` characters.
#[verifier::loop_isolation(false)]
fn find_open(t: &Vec<char>, from: usize) -> (r: Option<usize>)
    requires
        from <= t@.len(),
    ensures
        match r {
            Some(o) => first_open_from(t@, from as int) == Some(o as int),
            None => first_open_from(t@, from as int) is None,
        },
{
    let mut i: usize = from;
    while t.len() - i >= 2
        invariant
            from <= i <= t@.len(),
            first_open_from(t@, from as int) == first_open_from(t@, i as int),
        decreases t@.len() - i,
    {
        if t[i] == '{' && t[i + 1] == '{' {
            return Some(i);
        }
        i = i + 1;
    }
    None
}

/// The first position at or after `from` holding two `}` characters.
#[verifier::loop_isolation(false)]
fn find_close(t: &Vec<char>, from: usize) -> (r: Option<usize>)
    requires
        from <= t@.len(),
    ensures
        match r {
            Some(o) => first_close_from(t@, from as int) == Some(o as int),
            None => first_close_from(t@, from as int) is None,
        },
{
    let mut i: usize = from;
    while t.len() - i >= 2
        invariant
            from <= i <= t@.len(),
            first_close_from(t@, from as int) == first_close_from(t@, i as int),
        decreases t@.len() - i,
    {
        if t[i] == '}' && t[i + 1] == '}' {
            return Some(i);
        }
        i = i + 1;
    }
    None
}

/// The characters with leading and trailing spaces removed.
#[verifier::loop_isolation(false)]
fn trim_exec(v: &Vec<char>) -> (r: Vec<char>)
    ensures
        r@ == trim(v@),
{
    let mut lo: usize = 0;
    let mut hi: usize = v.len();
    proof {
        assert(v@.subrange(0, v@.len() as int) =~= v@);
    }
    while lo < hi && v[lo] == ' '
        invariant
            lo <= hi <= v@.len(),
            hi as int == v@.len(),
            trim(v@) == trim(v@.subrange(lo as int, hi as int)),
        decreases hi - lo,
    {
        proof {
            let sub = v@.subrange(lo as int, hi as int);
            assert(sub[0] == ' ');
            assert(sub.drop_first() =~= v@.subrange(lo as int + 1, hi as int));
        }
        lo = lo + 1;
    }
    while hi > lo && v[hi - 1] == ' '
        invariant
            lo <= hi <= v@.len(),
            trim(v@) == trim(v@.subrange(lo as int, hi as int)),
            lo < hi ==> v@[lo as int] != ' ',
        decreases hi - lo,
    {
        proof {
            let sub = v@.subrange(lo as int, hi as int);
            assert(sub.last() == ' ');
            assert(sub[0] != ' ');
            assert(sub.drop_last() =~= v@.subrange(lo as int, hi as int - 1));
        }
        hi = hi - 1;
    }
    proof {
        let sub = v@.subrange(lo as int, hi as int);
        if sub.len() > 0 {
            assert(sub[0] != ' ');
            assert(sub.last() == v@[hi as int - 1]);
            assert(sub.last() != ' ');
        }
        assert(trim(sub) == sub);
    }
    copy_chars(v, lo, hi)
}

/// The character of a decimal digit.
fn digit_of(d: u64) -> (c: char)
    requires
        d < 10,
    ensures
        c == digit_char(d as int),
{
    let b: u8 = 48 + (d as u8);
    proof {
        assert(b == (48 + d as int) as u8);
    }
    b as char
}

/// The decimal digits of the number, most significant first.
fn dec_chars(n: u64) -> (r: Vec<char>)
    ensures
        r@ == dec_digits(n as int),
    decreases n,
{
    if n < 10 {
        let mut out: Vec<char> = Vec::new();
        out.push(digit_of(n));
        proof {
            assert(out@ =~= seq![digit_char(n as int)]);
        }
        out
    } else {
        let mut out = dec_chars(n / 10);
        out.push(digit_of(n % 10));
        proof {
            assert((n / 10) as int == n as int / 10);
            assert((n % 10) as int == n as int % 10);
        }
        out
    }
}

/// The decimal text of the integer.
fn int_chars(i: i64) -> (r: Vec<char>)
    ensures
        r@ == int_str(i as int),
{
    if i >= 0 {
        dec_chars(i as u64)
    } else {
        let m: u64 = (-(i as i128)) as u64;
        proof {
            assert(i as int >= i64::MIN as int);
            assert(m as int == -(i as int));
        }
        let digits = dec_chars(m);
        let mut out: Vec<char> = Vec::new();
        out.push('-');
        append_chars(&mut out, &digits);
        proof {
            assert(out@ =~= seq!['-'] + dec_digits(m as int));
        }
        out
    }
}

/// The substitution text of a scalar value, or nothing for a non-scalar.
fn scalar_chars(v: &crate::value::Value) -> (r: Option<Vec<char>>)
    ensures
        match r {
            Some(cv) => scalar_str(v@) == Some(cv@),
            None => scalar_str(v@) is None,
        },
{
    match v {
        crate::value::Value::Str(s) => Some(chars_of(s.as_str())),
        crate::value::Value::Bool(b) => Some(
            if *b {
                chars_of("true")
            } else {
                chars_of("false")
            },
        ),
        crate::value::Value::Int(i) => Some(int_chars(*i)),
        _ => None,
    }
}

/// Renders the characters of a template against the context.
fn render_chars(t: &Vec<char>, c: &Context) -> (r: Option<Vec<char>>)
    requires
        c.wf(),
    ensures
        match r {
            Some(out) => spec_render(t@, c@) == Some(out@),
            None => spec_render(t@, c@) is None,
        },
    decreases t@.len(),
{
    let n = t.len();
    match find_open(t, 0) {
        None => Some(copy_chars(t, 0, n)),
        Some(o) => {
            proof {
                lemma_open_bounds(t@, 0);
                assert(is_open_at(t@, o as int));
                assert(o as int + 2 <= n);
            }
            match find_close(t, o + 2) {
                None => None,
                Some(cl) => {
                    proof {
                        lemma_close_bounds(t@, o as int + 2);
                        assert(is_close_at(t@, cl as int));
                        assert(cl as int + 2 <= n);
                    }
                    let raw = copy_chars(t, o + 2, cl);
                    let key = trim_exec(&raw);
                    let key_string = string_of(&key);
                    match c.get(key_string.as_str()) {
                        None => None,
                        Some(v) => match scalar_chars(v) {
                            None => None,
                            Some(sv) => {
                                let rest_vec = copy_chars(t, cl + 2, n);
                                match render_chars(&rest_vec, c) {
                                    None => None,
                                    Some(rest) => {
                                        let mut out = copy_chars(t, 0, o);
                                        append_chars(&mut out, &sv);
                                        append_chars(&mut out, &rest);
                                        proof {
                                            assert(out@ =~= t@.subrange(0, o as int) + sv@
                                                + rest@);
                                        }
                                        Some(out)
                                    },
                                }
                            },
                        },
                    }
                },
            }
        },
    }
}

/// Renders the template text against the context: every placeholder is
/// replaced by its key's value. Succeeds exactly when every placeholder
/// is terminated and names a scalar-valued key of the context; any
/// reference to an undefined key is a render failure carrying the
/// template text.
pub fn render(template_text: &str, context: &Context) -> (r: Result<String, GenerateFilesError>)
    requires
        context.wf(),
    ensures
        match r {
            Ok(s) => spec_render(template_text@, context@) == Some(s@),
            Err(e) => {
                &&& spec_render(template_text@, context@) is None
                &&& e matches GenerateFilesError::RenderFailure(m) && m@ == template_text@
            },
        },
{
    let t = chars_of(template_text);
    match render_chars(&t, context) {
        Some(out) => Ok(string_of(&out)),
        None => Err(GenerateFilesError::RenderFailure(template_text.to_owned())),
    }
}

} // verus!
