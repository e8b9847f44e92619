//! Splitting a document into physical lines and joining them back.
//!
//! Several rewrite rules are line-anchored: they match only at the start of a
//! physical line, so they are applied line by line.  A document of `n`
//! newline characters has exactly `n + 1` lines; the empty document has one
//! empty line.

use vstd::prelude::*;

verus! {

/// The physical lines of a document: maximal runs of characters between
/// newline characters.  Always non-empty; a trailing newline yields a final
/// empty line.
pub open spec fn lines_of(s: Seq<char>) -> Seq<Seq<char>>
    decreases s.len(),
{
    if s.len() == 0 {
        seq![Seq::<char>::empty()]
    } else if s[0] == '\n' {
        seq![Seq::<char>::empty()] + lines_of(s.drop_first())
    } else {
        let rest = lines_of(s.drop_first());
        seq![seq![s[0]] + rest[0]] + rest.drop_first()
    }
}

/// The document holding the given lines, separated by newline characters.
pub open spec fn join_lines(ls: Seq<Seq<char>>) -> Seq<char>
    decreases ls.len(),
{
    if ls.len() == 0 {
        Seq::<char>::empty()
    } else if ls.len() == 1 {
        ls[0]
    } else {
        ls[0] + seq!['\n'] + join_lines(ls.drop_first())
    }
}

/// A document always has at least one line.
pub proof fn lemma_lines_nonempty(s: Seq<char>)
    ensures
        lines_of(s).len() >= 1,
    decreases s.len(),
{
    if s.len() == 0 {
    } else {
        lemma_lines_nonempty(s.drop_first());
    }
}

/// A character class that holds of every character of a document holds of
/// every character of each of its lines.
pub proof fn lemma_lines_chars(s: Seq<char>, p: spec_fn(char) -> bool)
    requires
        forall|m: int| 0 <= m < s.len() ==> p(s[m]),
    ensures
        forall|i: int, j: int|
            0 <= i < lines_of(s).len() && 0 <= j < lines_of(s)[i].len() ==> p(lines_of(s)[i][j]),
    decreases s.len(),
{
    if s.len() == 0 {
    } else {
        assert forall|m: int| 0 <= m < s.drop_first().len() implies p(s.drop_first()[m]) by {
            assert(s.drop_first()[m] == s[m + 1]);
        }
        lemma_lines_chars(s.drop_first(), p);
        let rest = lines_of(s.drop_first());
        if s[0] == '\n' {
        } else {
            assert forall|i: int, j: int|
                0 <= i < lines_of(s).len() && 0 <= j < lines_of(s)[i].len() implies p(
                lines_of(s)[i][j],
            ) by {
                if i == 0 {
                    if j == 0 {
                    } else {
                        assert(lines_of(s)[0][j] == rest[0][j - 1]);
                    }
                } else {
                    assert(lines_of(s)[i] == rest[i]);
                }
            }
        }
    }
}

/// Filtering keeps a sequence whole when every element passes the test.
pub proof fn lemma_filter_all(ls: Seq<Seq<char>>, p: spec_fn(Seq<char>) -> bool)
    requires
        forall|i: int| 0 <= i < ls.len() ==> p(#[trigger] ls[i]),
    ensures
        ls.filter(p) == ls,
    decreases ls.len(),
{
    reveal_with_fuel(Seq::filter, 2);
    if ls.len() == 0 {
        assert(ls.filter(p) =~= ls);
    } else {
        assert forall|i: int| 0 <= i < ls.drop_last().len() implies p(#[trigger] ls.drop_last()[i])
            by {
            assert(ls.drop_last()[i] == ls[i]);
        }
        lemma_filter_all(ls.drop_last(), p);
        assert(p(ls.last()));
        assert(ls.filter(p) =~= ls);
    }
}

/// Joining the lines of a document gives the document back.
pub proof fn lemma_join_lines_of(s: Seq<char>)
    ensures
        join_lines(lines_of(s)) == s,
    decreases s.len(),
{
    if s.len() == 0 {
        assert(join_lines(lines_of(s)) =~= s);
    } else {
        lemma_join_lines_of(s.drop_first());
        let rest = lines_of(s.drop_first());
        lemma_lines_nonempty(s.drop_first());
        if s[0] == '\n' {
            assert(lines_of(s).drop_first() =~= rest);
            assert(join_lines(lines_of(s)) =~= s);
        } else if rest.len() == 1 {
            assert(lines_of(s) =~= seq![seq![s[0]] + rest[0]]);
            assert(join_lines(lines_of(s)) =~= s);
        } else {
            assert(lines_of(s).drop_first() =~= rest.drop_first());
            assert(join_lines(lines_of(s)) == (seq![s[0]] + rest[0]) + seq!['\n'] + join_lines(
                rest.drop_first(),
            ));
            assert(join_lines(rest) == rest[0] + seq!['\n'] + join_lines(rest.drop_first()));
            assert(join_lines(lines_of(s)) =~= seq![s[0]] + join_lines(rest));
            assert(join_lines(lines_of(s)) =~= s);
        }
    }
}

/// Appends the characters of `src` to `dst`.
pub fn copy_chars(dst: &mut Vec<char>, src: &Vec<char>)
    ensures
        final(dst)@ == old(dst)@ + src@,
{
    let mut j: usize = 0;
    while j < src.len()
        invariant
            j <= src.len(),
            dst@ == old(dst)@ + src@.take(j as int),
        decreases src.len() - j,
    {
        dst.push(src[j]);
        j = j + 1;
        proof {
            assert(src@.take(j as int) =~= src@.take(j as int - 1).push(src@[j - 1]));
            assert(dst@ =~= old(dst)@ + src@.take(j as int));
        }
    }
    proof {
        assert(src@.take(src@.len() as int) =~= src@);
    }
}

/// Splits the document into its physical lines.
pub fn split_lines(v: &Vec<char>) -> (r: Vec<Vec<char>>)
    ensures
        r.deep_view() == lines_of(v@),
{
    let r = split_from(v, 0);
    proof {
        assert(v@.skip(0) =~= v@);
    }
    r
}

fn split_from(v: &Vec<char>, i: usize) -> (r: Vec<Vec<char>>)
    requires
        i <= v.len(),
    ensures
        r.deep_view() == lines_of(v@.skip(i as int)),
        r.len() >= 1,
    decreases v.len() - i,
{
    if i == v.len() {
        let mut r: Vec<Vec<char>> = Vec::new();
        r.push(Vec::new());
        proof {
            assert(v@.skip(i as int) =~= Seq::<char>::empty());
            assert(r.deep_view() =~~= lines_of(v@.skip(i as int)));
        }
        r
    } else if v[i] == '\n' {
        let mut r = split_from(v, i + 1);
        r.insert(0, Vec::new());
        proof {
            assert(v@.skip(i as int).drop_first() =~= v@.skip(i as int + 1));
            assert(r.deep_view() =~~= lines_of(v@.skip(i as int)));
        }
        r
    } else {
        let mut r = split_from(v, i + 1);
        let mut first = r.remove(0);
        first.insert(0, v[i]);
        r.insert(0, first);
        proof {
            assert(v@.skip(i as int).drop_first() =~= v@.skip(i as int + 1));
            assert(v@.skip(i as int)[0] == v@[i as int]);
            assert(r.deep_view() =~~= lines_of(v@.skip(i as int)));
        }
        r
    }
}

/// Joins the lines back into one document with newline separators.
pub fn join_lines_exec(ls: &Vec<Vec<char>>) -> (r: Vec<char>)
    ensures
        r@ == join_lines(ls.deep_view()),
{
    let r = join_from(ls, 0);
    proof {
        assert(ls.deep_view().skip(0) =~= ls.deep_view());
    }
    r
}

fn join_from(ls: &Vec<Vec<char>>, i: usize) -> (r: Vec<char>)
    requires
        i <= ls.len(),
    ensures
        r@ == join_lines(ls.deep_view().skip(i as int)),
    decreases ls.len() - i,
{
    if i == ls.len() {
        let r: Vec<char> = Vec::new();
        proof {
            assert(ls.deep_view().skip(i as int) =~= Seq::<Seq<char>>::empty());
        }
        r
    } else if i + 1 == ls.len() {
        let mut r: Vec<char> = Vec::new();
        copy_chars(&mut r, &ls[i]);
        proof {
            assert(ls.deep_view().skip(i as int).len() == 1);
            assert(ls.deep_view().skip(i as int)[0] == ls@[i as int]@);
            assert(r@ =~= join_lines(ls.deep_view().skip(i as int)));
        }
        r
    } else {
        let mut r: Vec<char> = Vec::new();
        copy_chars(&mut r, &ls[i]);
        r.push('\n');
        let mut tail = join_from(ls, i + 1);
        r.append(&mut tail);
        proof {
            assert(ls.deep_view().skip(i as int).drop_first() =~= ls.deep_view().skip(i as int + 1));
            assert(ls.deep_view().skip(i as int)[0] == ls@[i as int]@);
            assert(r@ =~= join_lines(ls.deep_view().skip(i as int)));
        }
        r
    }
}

} // verus!
