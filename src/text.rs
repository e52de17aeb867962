//! Characters, digit runs and the strings built from them.
use vstd::prelude::*;

verus! {

/// An ASCII decimal digit.
pub open spec fn is_digit(c: char) -> bool {
    '0' <= c && c <= '9'
}

/// A separator allowed between the components of a filename date.
pub open spec fn is_sep(c: char) -> bool {
    c == '-' || c == '_'
}

/// A word character: an ASCII letter, an ASCII digit or `_`.
pub open spec fn is_word(c: char) -> bool {
    ('a' <= c && c <= 'z') || ('A' <= c && c <= 'Z') || is_digit(c) || c == '_'
}

/// `s` holds `n` digits starting at `i`.
pub open spec fn digits_at(s: Seq<char>, i: int, n: int) -> bool {
    0 <= i && i + n <= s.len() && forall|k: int| i <= k < i + n ==> is_digit(#[trigger] s[k])
}

/// `s` holds the character `c` at `i`.
pub open spec fn char_at(s: Seq<char>, i: int, c: char) -> bool {
    0 <= i < s.len() && s[i] == c
}

/// The view of an optional string.
pub open spec fn opt_view(o: Option<String>) -> Option<Seq<char>> {
    match o {
        Some(x) => Some(x@),
        None => None,
    }
}

pub fn digit(c: char) -> (r: bool)
    ensures
        r == is_digit(c),
{
    '0' <= c && c <= '9'
}

pub fn word(c: char) -> (r: bool)
    ensures
        r == is_word(c),
{
    ('a' <= c && c <= 'z') || ('A' <= c && c <= 'Z') || ('0' <= c && c <= '9') || c == '_'
}

/// Whether `cs` holds `n` digits starting at `i`.
pub fn digits_at_exec(cs: &Vec<char>, i: usize, n: usize) -> (r: bool)
    ensures
        r == digits_at(cs@, i as int, n as int),
{
    if i > cs.len() || cs.len() - i < n {
        return false;
    }
    let end = i + n;
    let mut k: usize = i;
    while k < end
        invariant
            i <= k <= end,
            end == i + n,
            end <= cs@.len(),
            forall|j: int| i <= j < k ==> is_digit(#[trigger] cs@[j]),
        decreases end - k,
    {
        if !digit(cs[k]) {
            return false;
        }
        k = k + 1;
    }
    true
}

/// Whether `cs` holds `c` at `i`.
pub fn char_at_exec(cs: &Vec<char>, i: usize, c: char) -> (r: bool)
    ensures
        r == char_at(cs@, i as int, c),
{
    i < cs.len() && cs[i] == c
}

/// The characters of `s`, one by one.
pub fn chars_of(s: &str) -> (r: Vec<char>)
    ensures
        r@ == s@,
{
    let n = s.unicode_len();
    let mut r: Vec<char> = Vec::new();
    let mut i: usize = 0;
    while i < n
        invariant
            i <= n,
            n == s@.len(),
            r@ == s@.subrange(0, i as int),
        decreases n - i,
    {
        r.push(s.get_char(i));
        i = i + 1;
        proof {
            assert(r@ =~= s@.subrange(0, i as int));
        }
    }
    proof {
        assert(r@ =~= s@);
    }
    r
}

/// The characters of `s` from `from` up to `to`.
pub fn part(s: &str, from: usize, to: usize) -> (r: String)
    requires
        from <= to <= s@.len(),
    ensures
        r@ == s@.subrange(from as int, to as int),
{
    s.substring_char(from, to).to_owned()
}

/// `a`, `sep`, `b`, `sep`, `c`, one after the other.
pub fn glue(a: String, sep: &str, b: String, c: String) -> (r: String)
    ensures
        r@ == a@ + sep@ + b@ + sep@ + c@,
{
    let mut r = a;
    r.append(sep);
    r.append(b.as_str());
    r.append(sep);
    r.append(c.as_str());
    r
}

} // verus!
