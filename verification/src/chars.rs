//! Character classes and conversions between `String` and `Vec<char>`.
//!
//! The rewrite rules work on `Vec<char>`, whose view is the same `Seq<char>`
//! as the view of the `String` it came from, so every contract can speak of
//! one sequence of characters throughout.

use vstd::prelude::*;

verus! {

use vstd::std_specs::iter::IteratorSpec;

/// A word character: ASCII letter, ASCII digit, or underscore.  Used by the
/// emphasis rule to keep underscores that sit inside ordinary words.
pub open spec fn is_word_char(c: char) -> bool {
    ('a' <= c && c <= 'z') || ('A' <= c && c <= 'Z') || ('0' <= c && c <= '9') || c == '_'
}

/// Horizontal whitespace inside a line.
pub open spec fn is_line_space(c: char) -> bool {
    c == ' ' || c == '\t'
}

/// Whitespace for the final document trim.
pub open spec fn is_space(c: char) -> bool {
    c == ' ' || c == '\t' || c == '\n' || c == '\r'
}

/// Executable mirror of `is_word_char`.
pub fn word_char(c: char) -> (r: bool)
    ensures
        r == is_word_char(c),
{
    ('a' <= c && c <= 'z') || ('A' <= c && c <= 'Z') || ('0' <= c && c <= '9') || c == '_'
}

/// Executable mirror of `is_line_space`.
pub fn line_space(c: char) -> (r: bool)
    ensures
        r == is_line_space(c),
{
    c == ' ' || c == '\t'
}

/// Executable mirror of `is_space`.
pub fn space(c: char) -> (r: bool)
    ensures
        r == is_space(c),
{
    c == ' ' || c == '\t' || c == '\n' || c == '\r'
}

/// Relies on `String::push`: appends the given character to the end of the
/// string, leaving everything before it unchanged.
#[verifier::external_body]
pub(crate) fn push_char(s: &mut String, c: char)
    ensures
        final(s)@ == old(s)@.push(c),
{
    s.push(c)
}

/// The characters of a string slice, as a vector with the same view.
pub fn chars_vec(s: &str) -> (r: Vec<char>)
    ensures
        r@ == s@,
{
    proof {
        broadcast use vstd::string::group_string_axioms;
    }
    let mut it = s.chars();
    let mut out: Vec<char> = Vec::new();
    loop
        invariant
            out@ + it.remaining() == s@,
            it.obeys_prophetic_iter_laws(),
            it.decrease() is Some,
        ensures
            out@ == s@,
        decreases it.decrease()->0,
    {
        proof {
            broadcast use vstd::string::next_postcondition;
        }
        match it.next() {
            Some(c) => {
                out.push(c);
            },
            None => {
                proof {
                    assert(it.remaining().len() == 0);
                    assert(out@ =~= s@);
                }
                break ;
            },
        }
    }
    out
}

/// The string holding exactly the given characters.
pub fn string_of(cs: &Vec<char>) -> (r: String)
    ensures
        r@ == cs@,
{
    let mut out = String::new();
    let mut i: usize = 0;
    while i < cs.len()
        invariant
            i <= cs.len(),
            out@ == cs@.take(i as int),
        decreases cs.len() - i,
    {
        push_char(&mut out, cs[i]);
        i = i + 1;
        proof {
            assert(cs@.take(i as int) =~= cs@.take(i as int - 1).push(cs@[i - 1]));
        }
    }
    proof {
        assert(cs@.take(cs@.len() as int) =~= cs@);
    }
    out
}

/// The characters of `l` from index `a` (inclusive) to `b` (exclusive).
pub fn slice_of(l: &Vec<char>, a: usize, b: usize) -> (r: Vec<char>)
    requires
        a <= b <= l.len(),
    ensures
        r@ == l@.subrange(a as int, b as int),
{
    let mut r: Vec<char> = Vec::new();
    let mut k: usize = a;
    while k < b
        invariant
            a <= k <= b <= l.len(),
            r@ == l@.subrange(a as int, k as int),
        decreases b - k,
    {
        r.push(l[k]);
        k = k + 1;
        proof {
            assert(l@.subrange(a as int, k as int) =~= l@.subrange(a as int, k as int - 1).push(
                l@[k - 1],
            ));
        }
    }
    r
}

/// The characters of `l` from index `i` on.
pub fn suffix_of(l: &Vec<char>, i: usize) -> (r: Vec<char>)
    requires
        i <= l.len(),
    ensures
        r@ == l@.skip(i as int),
{
    let r = slice_of(l, i, l.len());
    proof {
        assert(l@.subrange(i as int, l@.len() as int) =~= l@.skip(i as int));
    }
    r
}

/// A copy of the character vector.
pub fn clone_chars(l: &Vec<char>) -> (r: Vec<char>)
    ensures
        r@ == l@,
{
    let r = slice_of(l, 0, l.len());
    proof {
        assert(l@.subrange(0, l@.len() as int) =~= l@);
    }
    r
}

/// Whether two character vectors hold the same characters.
pub fn chars_eq(a: &Vec<char>, b: &Vec<char>) -> (r: bool)
    ensures
        r == (a@ == b@),
{
    if a.len() != b.len() {
        proof {
            assert(a@.len() != b@.len());
        }
        return false;
    }
    let mut i: usize = 0;
    while i < a.len()
        invariant
            i <= a.len(),
            a@.len() == b@.len(),
            forall|j: int| 0 <= j < i ==> a@[j] == b@[j],
        decreases a.len() - i,
    {
        if a[i] != b[i] {
            return false;
        }
        i = i + 1;
    }
    proof {
        assert(a@ =~= b@);
    }
    true
}

/// Whether the string slice holds exactly the given characters.
pub fn str_is(s: &str, cs: &Vec<char>) -> (r: bool)
    ensures
        r == (s@ == cs@),
{
    let sv = chars_vec(s);
    chars_eq(&sv, cs)
}

} // verus!
