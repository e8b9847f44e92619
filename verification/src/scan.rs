//! Scanning helpers shared by the rewrite rules: first occurrence of a
//! character, leading runs, and trimming by a character class.

use vstd::prelude::*;

verus! {

/// Index of the first occurrence of `c` in `s`, or `-1` when `s` has none.
pub open spec fn find_from(s: Seq<char>, c: char) -> int
    decreases s.len(),
{
    if s.len() == 0 {
        -1
    } else if s[0] == c {
        0
    } else {
        let r = find_from(s.drop_first(), c);
        if r < 0 {
            -1
        } else {
            r + 1
        }
    }
}

/// `find_from` returns exactly the index of the first occurrence.
pub proof fn lemma_find_from_is(s: Seq<char>, c: char, j: int)
    requires
        0 <= j <= s.len(),
        forall|m: int| 0 <= m < j ==> s[m] != c,
        j == s.len() || s[j] == c,
    ensures
        find_from(s, c) == if j == s.len() {
            -1int
        } else {
            j
        },
    decreases s.len(),
{
    if s.len() == 0 {
    } else if j == 0 {
        if s.len() > 0 && s[0] != c {
            lemma_find_from_is(s.drop_first(), c, 0);
        }
    } else {
        lemma_find_from_is(s.drop_first(), c, j - 1);
    }
}

/// First index at or after `from` holding `c`, or `None`.
pub fn find_char(l: &Vec<char>, from: usize, c: char) -> (r: Option<usize>)
    requires
        from <= l.len(),
    ensures
        match r {
            Some(k) => from <= k < l.len() && find_from(l@.skip(from as int), c) == k - from,
            None => find_from(l@.skip(from as int), c) == -1,
        },
{
    let mut k: usize = from;
    while k < l.len() && l[k] != c
        invariant
            from <= k <= l.len(),
            forall|m: int| from <= m < k ==> l@[m] != c,
        decreases l.len() - k,
    {
        k = k + 1;
    }
    proof {
        lemma_find_from_is(l@.skip(from as int), c, k - from);
    }
    if k < l.len() {
        Some(k)
    } else {
        None
    }
}

/// Length of the leading run of characters equal to `c`.
pub open spec fn run_of(s: Seq<char>, c: char) -> int
    decreases s.len(),
{
    if s.len() == 0 || s[0] != c {
        0
    } else {
        1 + run_of(s.drop_first(), c)
    }
}

/// `run_of` returns exactly the length of the leading run.
pub proof fn lemma_run_of_is(s: Seq<char>, c: char, j: int)
    requires
        0 <= j <= s.len(),
        forall|m: int| 0 <= m < j ==> s[m] == c,
        j == s.len() || s[j] != c,
    ensures
        run_of(s, c) == j,
    decreases s.len(),
{
    if j == 0 {
    } else {
        lemma_run_of_is(s.drop_first(), c, j - 1);
    }
}

/// Bounds of `run_of`.
pub proof fn lemma_run_of_bounds(s: Seq<char>, c: char)
    ensures
        0 <= run_of(s, c) <= s.len(),
    decreases s.len(),
{
    if s.len() > 0 && s[0] == c {
        lemma_run_of_bounds(s.drop_first(), c);
    }
}

/// Length of the leading run of characters equal to `c`, starting at `from`.
pub fn run_len(l: &Vec<char>, from: usize, c: char) -> (r: usize)
    requires
        from <= l.len(),
    ensures
        run_of(l@.skip(from as int), c) == r,
        from + r <= l.len(),
{
    let mut k: usize = from;
    while k < l.len() && l[k] == c
        invariant
            from <= k <= l.len(),
            forall|m: int| from <= m < k ==> l@[m] == c,
        decreases l.len() - k,
    {
        k = k + 1;
    }
    proof {
        lemma_run_of_is(l@.skip(from as int), c, k - from);
    }
    k - from
}

/// Length of the leading run of characters of the class `p`.
pub open spec fn run_by(s: Seq<char>, p: spec_fn(char) -> bool) -> int
    decreases s.len(),
{
    if s.len() > 0 && p(s[0]) {
        1 + run_by(s.drop_first(), p)
    } else {
        0
    }
}

/// `run_by` returns exactly the length of the leading class run.
pub proof fn lemma_run_by_is(s: Seq<char>, p: spec_fn(char) -> bool, j: int)
    requires
        0 <= j <= s.len(),
        forall|m: int| 0 <= m < j ==> p(s[m]),
        j == s.len() || !p(s[j]),
    ensures
        run_by(s, p) == j,
    decreases s.len(),
{
    if j == 0 {
    } else {
        lemma_run_by_is(s.drop_first(), p, j - 1);
    }
}

/// The sequence with its leading run of class characters removed.
pub open spec fn trim_start_by(s: Seq<char>, p: spec_fn(char) -> bool) -> Seq<char>
    decreases s.len(),
{
    if s.len() > 0 && p(s[0]) {
        trim_start_by(s.drop_first(), p)
    } else {
        s
    }
}

/// The sequence with its trailing run of class characters removed.
pub open spec fn trim_end_by(s: Seq<char>, p: spec_fn(char) -> bool) -> Seq<char>
    decreases s.len(),
{
    if s.len() > 0 && p(s[s.len() - 1]) {
        trim_end_by(s.drop_last(), p)
    } else {
        s
    }
}

/// `trim_start_by` removes exactly the leading class characters.
pub proof fn lemma_trim_start_by_is(s: Seq<char>, p: spec_fn(char) -> bool, a: int)
    requires
        0 <= a <= s.len(),
        forall|m: int| 0 <= m < a ==> p(s[m]),
        a == s.len() || !p(s[a]),
    ensures
        trim_start_by(s, p) == s.skip(a),
    decreases s.len(),
{
    if a == 0 {
        assert(s.skip(0) =~= s);
    } else {
        lemma_trim_start_by_is(s.drop_first(), p, a - 1);
        assert(s.drop_first().skip(a - 1) =~= s.skip(a));
    }
}

/// `trim_end_by` removes exactly the trailing class characters.
pub proof fn lemma_trim_end_by_is(s: Seq<char>, p: spec_fn(char) -> bool, b: int)
    requires
        0 <= b <= s.len(),
        forall|m: int| b <= m < s.len() ==> p(s[m]),
        b == 0 || !p(s[b - 1]),
    ensures
        trim_end_by(s, p) == s.take(b),
    decreases s.len(),
{
    if b == s.len() {
        assert(s.take(b) =~= s);
    } else {
        lemma_trim_end_by_is(s.drop_last(), p, b);
        assert(s.drop_last().take(b) =~= s.take(b));
    }
}

/// Trimming by both ends removes exactly the outer class characters: with
/// `a` the first index kept and `b` one past the last index kept.
pub proof fn lemma_trim_both_by_is(s: Seq<char>, p: spec_fn(char) -> bool, a: int, b: int)
    requires
        0 <= a <= b <= s.len(),
        forall|m: int| 0 <= m < a ==> p(s[m]),
        forall|m: int| b <= m < s.len() ==> p(s[m]),
        a == b || (!p(s[a]) && !p(s[b - 1])),
    ensures
        trim_end_by(trim_start_by(s, p), p) == s.subrange(a, b),
    decreases s.len(),
{
    if a == b {
        lemma_trim_start_by_is(s, p, s.len() as int);
        assert(s.skip(s.len() as int) =~= Seq::<char>::empty());
        assert(trim_end_by(Seq::<char>::empty(), p) =~= Seq::<char>::empty());
        assert(s.subrange(a, b) =~= Seq::<char>::empty());
    } else {
        lemma_trim_start_by_is(s, p, a);
        lemma_trim_end_by_is(s.skip(a), p, b - a);
        assert(s.skip(a).take(b - a) =~= s.subrange(a, b));
    }
}

} // verus!
