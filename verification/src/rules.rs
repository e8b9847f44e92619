//! The rewrite rules of the Markdown normalizer, one spec function and one
//! executable function per rule.  Line-anchored rules work on a single
//! physical line; the others work on the whole document.

use vstd::prelude::*;

verus! {

use crate::chars::is_word_char;
use crate::chars::is_line_space;
use crate::chars::is_space;
use crate::chars::line_space;
use crate::chars::word_char;
use crate::chars::space;
use crate::chars::slice_of;
use crate::chars::suffix_of;
use crate::chars::clone_chars;
use crate::scan::find_from;
use crate::scan::lemma_find_from_is;
use crate::scan::find_char;
use crate::scan::run_of;
use crate::scan::lemma_run_of_is;
use crate::scan::run_len;
use crate::scan::run_by;
use crate::scan::lemma_run_by_is;
use crate::scan::trim_start_by;
use crate::scan::trim_end_by;
use crate::scan::lemma_trim_start_by_is;
use crate::scan::lemma_trim_both_by_is;

/// The class of horizontal whitespace, as a value usable with the trim and
/// run helpers.
pub open spec fn line_space_class() -> spec_fn(char) -> bool {
    |c: char| is_line_space(c)
}

/// The class of ASCII digits.
pub open spec fn digit_class() -> spec_fn(char) -> bool {
    |c: char| '0' <= c && c <= '9'
}

/// The class of whitespace for the document trim.
pub open spec fn space_class() -> spec_fn(char) -> bool {
    |c: char| is_space(c)
}

/// Header unwrap: a line of one to six leading `#` characters, a space, and
/// text keeps only the text; any other line is untouched.
pub open spec fn header_line(l: Seq<char>) -> Seq<char> {
    let k = run_of(l, '#');
    if 1 <= k <= 6 && k < l.len() && l[k] == ' ' {
        l.skip(k + 1)
    } else {
        l
    }
}

/// Executable header unwrap for one line.
pub fn header_line_exec(l: &Vec<char>) -> (r: Vec<char>)
    ensures
        r@ == header_line(l@),
{
    proof {
        assert(l@.skip(0) =~= l@);
    }
    let k = run_len(l, 0, '#');
    if 1 <= k && k <= 6 && k < l.len() && l[k] == ' ' {
        suffix_of(l, k + 1)
    } else {
        clone_chars(l)
    }
}

/// Inline code strip: every span delimited by a backtick pair with at least
/// one character between them is removed, leftmost first; a backtick with no
/// later closing backtick, or an immediately following backtick, stays.
pub open spec fn strip_inline(l: Seq<char>) -> Seq<char>
    decreases l.len(),
{
    if l.len() == 0 {
        l
    } else if l[0] == '`' {
        let j = find_from(l.skip(1), '`');
        if 1 <= j && j + 2 <= l.len() {
            strip_inline(l.skip(j + 2))
        } else {
            seq![l[0]] + strip_inline(l.drop_first())
        }
    } else {
        seq![l[0]] + strip_inline(l.drop_first())
    }
}

/// Executable inline code strip for one line.
pub fn strip_inline_exec(l: &Vec<char>) -> (r: Vec<char>)
    ensures
        r@ == strip_inline(l@),
{
    let r = strip_inline_from(l, 0);
    proof {
        assert(l@.skip(0) =~= l@);
    }
    r
}

fn strip_inline_from(l: &Vec<char>, i: usize) -> (r: Vec<char>)
    requires
        i <= l.len(),
    ensures
        r@ == strip_inline(l@.skip(i as int)),
    decreases l.len() - i,
{
    let ghost s = l@.skip(i as int);
    if i == l.len() {
        let r: Vec<char> = Vec::new();
        proof {
            assert(s =~= Seq::<char>::empty());
        }
        r
    } else {
        proof {
            assert(s.skip(1) =~= l@.skip(i as int + 1));
            assert(s.drop_first() =~= l@.skip(i as int + 1));
        }
        let mut close: usize = 0;
        let mut found = false;
        if l[i] == '`' {
            match find_char(l, i + 1, '`') {
                Some(k) => {
                    if k > i + 1 {
                        found = true;
                        close = k;
                    }
                },
                None => {},
            }
        }
        if found {
            let r = strip_inline_from(l, close + 1);
            proof {
                assert(s.skip(close - i + 1) =~= l@.skip(close as int + 1));
            }
            r
        } else {
            let mut r = strip_inline_from(l, i + 1);
            r.insert(0, l[i]);
            proof {
                assert(r@ =~= strip_inline(s));
            }
            r
        }
    }
}

/// Blockquote marker strip: a line beginning with `>` and a space loses that
/// marker.
pub open spec fn blockquote_line(l: Seq<char>) -> Seq<char> {
    if l.len() >= 2 && l[0] == '>' && is_line_space(l[1]) {
        l.skip(2)
    } else {
        l
    }
}

/// Executable blockquote marker strip for one line.
pub fn blockquote_line_exec(l: &Vec<char>) -> (r: Vec<char>)
    ensures
        r@ == blockquote_line(l@),
{
    if l.len() >= 2 && l[0] == '>' && line_space(l[1]) {
        suffix_of(l, 2)
    } else {
        clone_chars(l)
    }
}

/// Unordered list marker strip: a line of optional leading whitespace, one of
/// `-`, `*` or `+`, and a whitespace character loses all of that prefix.
pub open spec fn unordered_item_line(l: Seq<char>) -> Seq<char> {
    let t = trim_start_by(l, line_space_class());
    if t.len() >= 2 && (t[0] == '-' || t[0] == '*' || t[0] == '+') && is_line_space(t[1]) {
        t.skip(2)
    } else {
        l
    }
}

/// Executable unordered list marker strip for one line.
pub fn unordered_item_line_exec(l: &Vec<char>) -> (r: Vec<char>)
    ensures
        r@ == unordered_item_line(l@),
{
    let a = space_scan(l, 0);
    proof {
        lemma_trim_start_by_is(l@, line_space_class(), a as int);
    }
    if a < l.len() && (l[a] == '-' || l[a] == '*' || l[a] == '+') && a + 1 < l.len() && line_space(
        l[a + 1],
    ) {
        let r = suffix_of(l, a + 2);
        proof {
            assert(l@.skip(a as int).skip(2) =~= l@.skip(a as int + 2));
        }
        r
    } else {
        clone_chars(l)
    }
}

/// Ordered list marker strip: a line of optional leading whitespace, one or
/// more digits, a dot, and a whitespace character loses all of that prefix.
pub open spec fn ordered_item_line(l: Seq<char>) -> Seq<char> {
    let t = trim_start_by(l, line_space_class());
    let d = run_by(t, digit_class());
    if d >= 1 && d + 2 <= t.len() && t[d] == '.' && is_line_space(t[d + 1]) {
        t.skip(d + 2)
    } else {
        l
    }
}

/// Executable ordered list marker strip for one line.
pub fn ordered_item_line_exec(l: &Vec<char>) -> (r: Vec<char>)
    ensures
        r@ == ordered_item_line(l@),
{
    let a = space_scan(l, 0);
    proof {
        lemma_trim_start_by_is(l@, line_space_class(), a as int);
    }
    let mut e: usize = a;
    while e < l.len() && '0' <= l[e] && l[e] <= '9'
        invariant
            a <= e <= l.len(),
            forall|m: int| a <= m < e ==> digit_class()(l@[m]),
        decreases l.len() - e,
    {
        e = e + 1;
    }
    proof {
        lemma_run_by_is(l@.skip(a as int), digit_class(), e - a);
    }
    if e > a && e < l.len() && l[e] == '.' && e + 1 < l.len() && line_space(l[e + 1]) {
        let r = suffix_of(l, e + 2);
        proof {
            assert(l@.skip(a as int).skip(e - a + 2) =~= l@.skip(e as int + 2));
        }
        r
    } else {
        clone_chars(l)
    }
}

/// First index at or after `from` whose character is not horizontal
/// whitespace, or the length when all of the rest is whitespace.
fn space_scan(l: &Vec<char>, from: usize) -> (a: usize)
    requires
        from <= l.len(),
    ensures
        from <= a <= l.len(),
        forall|m: int| from <= m < a ==> is_line_space(l@[m]),
        a == l.len() || !is_line_space(l@[a as int]),
{
    let mut a: usize = from;
    while a < l.len() && line_space(l[a])
        invariant
            from <= a <= l.len(),
            forall|m: int| from <= m < a ==> is_line_space(l@[m]),
        decreases l.len() - a,
    {
        a = a + 1;
    }
    a
}

/// Horizontal rule test: the line is, ignoring leading and trailing
/// whitespace, three or more characters drawn from `-`, `*` and `_`.
pub open spec fn is_hr_line(l: Seq<char>) -> bool {
    let t = trim_end_by(trim_start_by(l, line_space_class()), line_space_class());
    t.len() >= 3 && forall|m: int| 0 <= m < t.len() ==> (t[m] == '-' || t[m] == '*' || t[m] == '_')
}

/// Executable horizontal rule test for one line.
pub fn is_hr_line_exec(l: &Vec<char>) -> (r: bool)
    ensures
        r == is_hr_line(l@),
{
    let a = space_scan(l, 0);
    if a == l.len() {
        proof {
            lemma_trim_both_by_is(l@, line_space_class(), a as int, a as int);
        }
        return false;
    }
    let mut b: usize = l.len();
    while b > a + 1 && line_space(l[b - 1])
        invariant
            a < b <= l.len(),
            forall|m: int| b <= m < l@.len() ==> is_line_space(l@[m]),
        decreases b,
    {
        b = b - 1;
    }
    proof {
        // At the loop exit either the scan stopped on a non-space, or it ran
        // down to a + 1, and l[a] is not a space.
        assert(!is_line_space(l@[b - 1]));
        lemma_trim_both_by_is(l@, line_space_class(), a as int, b as int);
    }
    let ghost t = l@.subrange(a as int, b as int);
    if b - a < 3 {
        return false;
    }
    let mut m: usize = a;
    while m < b
        invariant
            a <= m <= b <= l.len(),
            b - a >= 3,
            t == l@.subrange(a as int, b as int),
            t == trim_end_by(trim_start_by(l@, line_space_class()), line_space_class()),
            forall|q: int| a <= q < m ==> (l@[q] == '-' || l@[q] == '*' || l@[q] == '_'),
        decreases b - m,
    {
        if !(l[m] == '-' || l[m] == '*' || l[m] == '_') {
            proof {
                assert(t[m - a] == l@[m as int]);
            }
            return false;
        }
        m = m + 1;
    }
    proof {
        assert(forall|q: int| 0 <= q < t.len() ==> (t[q] == '-' || t[q] == '*' || t[q] == '_'))
            by {
            assert(forall|q: int| 0 <= q < t.len() ==> t[q] == l@[a + q]);
        }
    }
    true
}

/// Whether an opening or closing code fence (three backticks) stands at
/// index `m`.
pub open spec fn fence_at(s: Seq<char>, m: int) -> bool {
    0 <= m && m + 3 <= s.len() && s[m] == '`' && s[m + 1] == '`' && s[m + 2] == '`'
}

/// Index of the first code fence in `s`, or `-1` when `s` has none.
pub open spec fn find_fence(s: Seq<char>) -> int
    decreases s.len(),
{
    if s.len() < 3 {
        -1
    } else if s[0] == '`' && s[1] == '`' && s[2] == '`' {
        0
    } else {
        let r = find_fence(s.drop_first());
        if r < 0 {
            -1
        } else {
            r + 1
        }
    }
}

/// `find_fence` finds the first fence.
pub proof fn lemma_find_fence_found(s: Seq<char>, j: int)
    requires
        fence_at(s, j),
        forall|m: int| 0 <= m < j ==> !fence_at(s, m),
    ensures
        find_fence(s) == j,
    decreases s.len(),
{
    if j == 0 {
    } else {
        assert(!fence_at(s, 0));
        assert(fence_at(s.drop_first(), j - 1));
        assert forall|m: int| 0 <= m < j - 1 implies !fence_at(s.drop_first(), m) by {
            if fence_at(s.drop_first(), m) {
                assert(fence_at(s, m + 1));
            }
        }
        lemma_find_fence_found(s.drop_first(), j - 1);
    }
}

/// `find_fence` reports absence.
pub proof fn lemma_find_fence_none(s: Seq<char>)
    requires
        forall|m: int| !fence_at(s, m),
    ensures
        find_fence(s) == -1,
    decreases s.len(),
{
    if s.len() < 3 {
    } else {
        assert(!fence_at(s, 0));
        assert forall|m: int| !fence_at(s.drop_first(), m) by {
            if fence_at(s.drop_first(), m) {
                assert(fence_at(s, m + 1));
            }
        }
        lemma_find_fence_none(s.drop_first());
    }
}

/// First index at or after `from` where a code fence stands, or `None`.
fn find_fence_exec(l: &Vec<char>, from: usize) -> (r: Option<usize>)
    requires
        from <= l.len(),
    ensures
        match r {
            Some(k) => from <= k && k + 3 <= l.len() && find_fence(l@.skip(from as int)) == k
                - from,
            None => find_fence(l@.skip(from as int)) == -1,
        },
{
    let ghost s = l@.skip(from as int);
    let mut m: usize = from;
    loop
        invariant
            from <= m <= l.len(),
            s == l@.skip(from as int),
            forall|q: int|
                from <= q < m ==> !(q + 3 <= l@.len() && #[trigger] l@[q] == '`' && l@[q + 1]
                    == '`' && l@[q + 2] == '`'),
        decreases l.len() - m,
    {
        if m >= l.len() || l.len() - m < 3 {
            proof {
                assert forall|p: int| !fence_at(s, p) by {
                    if fence_at(s, p) {
                        assert(s[p] == l@[from + p]);
                        assert(s[p + 1] == l@[from + p + 1]);
                        assert(s[p + 2] == l@[from + p + 2]);
                    }
                }
                lemma_find_fence_none(s);
            }
            return None;
        }
        if l[m] == '`' && l[m + 1] == '`' && l[m + 2] == '`' {
            proof {
                assert(fence_at(s, m - from)) by {
                    assert(s[m - from] == l@[m as int]);
                    assert(s[m - from + 1] == l@[m as int + 1]);
                    assert(s[m - from + 2] == l@[m as int + 2]);
                }
                assert forall|p: int| 0 <= p < m - from implies !fence_at(s, p) by {
                    if fence_at(s, p) {
                        assert(s[p] == l@[from + p]);
                        assert(s[p + 1] == l@[from + p + 1]);
                        assert(s[p + 2] == l@[from + p + 2]);
                    }
                }
                lemma_find_fence_found(s, m - from);
            }
            return Some(m);
        }
        m = m + 1;
    }
}

/// Fenced code block strip: from each opening fence, everything through the
/// next closing fence is removed; an opening fence with no closing fence
/// stays, with all that follows it.
pub open spec fn strip_fences(s: Seq<char>) -> Seq<char>
    decreases s.len(),
{
    if s.len() == 0 {
        s
    } else if fence_at(s, 0) {
        let j = find_fence(s.skip(3));
        if 0 <= j && j + 6 <= s.len() {
            strip_fences(s.skip(j + 6))
        } else {
            s
        }
    } else {
        seq![s[0]] + strip_fences(s.drop_first())
    }
}

/// Executable fenced code block strip for the whole document.
pub fn strip_fences_exec(l: &Vec<char>) -> (r: Vec<char>)
    ensures
        r@ == strip_fences(l@),
{
    let r = strip_fences_from(l, 0);
    proof {
        assert(l@.skip(0) =~= l@);
    }
    r
}

fn strip_fences_from(l: &Vec<char>, i: usize) -> (r: Vec<char>)
    requires
        i <= l.len(),
    ensures
        r@ == strip_fences(l@.skip(i as int)),
    decreases l.len() - i,
{
    let ghost s = l@.skip(i as int);
    if i == l.len() {
        let r: Vec<char> = Vec::new();
        proof {
            assert(s =~= Seq::<char>::empty());
        }
        r
    } else if l.len() - i >= 3 && l[i] == '`' && l[i + 1] == '`' && l[i + 2] == '`' {
        proof {
            assert(fence_at(s, 0)) by {
                assert(s[0] == l@[i as int]);
                assert(s[1] == l@[i as int + 1]);
                assert(s[2] == l@[i as int + 2]);
            }
            assert(s.skip(3) =~= l@.skip(i as int + 3));
        }
        match find_fence_exec(l, i + 3) {
            Some(k) => {
                let r = strip_fences_from(l, k + 3);
                proof {
                    assert(s.skip(k - i + 3) =~= l@.skip(k as int + 3));
                }
                r
            },
            None => {
                let r = suffix_of(l, i);
                r
            },
        }
    } else {
        proof {
            if fence_at(s, 0) {
                assert(s[0] == l@[i as int]);
                assert(s[1] == l@[i as int + 1]);
                assert(s[2] == l@[i as int + 2]);
                assert(false);
            }
            assert(s.drop_first() =~= l@.skip(i as int + 1));
        }
        let mut r = strip_fences_from(l, i + 1);
        r.insert(0, l[i]);
        proof {
            assert(r@ =~= strip_fences(s));
        }
        r
    }
}

/// Link unwrap: every span `[label](target)` with non-empty label and target
/// is replaced by its label alone, leftmost first.
pub open spec fn strip_links(s: Seq<char>) -> Seq<char>
    decreases s.len(),
{
    if s.len() == 0 {
        s
    } else if s[0] == '[' {
        let cb = find_from(s.skip(1), ']');
        if cb >= 1 && cb + 2 < s.len() && s[cb + 2] == '(' {
            let cp = find_from(s.skip(cb + 3), ')');
            if cp >= 1 && cb + cp + 4 <= s.len() {
                s.subrange(1, cb + 1) + strip_links(s.skip(cb + cp + 4))
            } else {
                seq![s[0]] + strip_links(s.drop_first())
            }
        } else {
            seq![s[0]] + strip_links(s.drop_first())
        }
    } else {
        seq![s[0]] + strip_links(s.drop_first())
    }
}

/// Executable link unwrap for the whole document.
pub fn strip_links_exec(l: &Vec<char>) -> (r: Vec<char>)
    ensures
        r@ == strip_links(l@),
{
    let r = strip_links_from(l, 0);
    proof {
        assert(l@.skip(0) =~= l@);
    }
    r
}

fn strip_links_from(l: &Vec<char>, i: usize) -> (r: Vec<char>)
    requires
        i <= l.len(),
    ensures
        r@ == strip_links(l@.skip(i as int)),
    decreases l.len() - i,
{
    let ghost s = l@.skip(i as int);
    if i == l.len() {
        let r: Vec<char> = Vec::new();
        proof {
            assert(s =~= Seq::<char>::empty());
        }
        r
    } else {
        proof {
            assert(s.skip(1) =~= l@.skip(i as int + 1));
            assert(s.drop_first() =~= l@.skip(i as int + 1));
        }
        let mut label_end: usize = 0;
        let mut target_end: usize = 0;
        let mut found = false;
        if l[i] == '[' {
            match find_char(l, i + 1, ']') {
                Some(cb) => {
                    // `cb` is the absolute index of the closing bracket.
                    if cb > i + 1 && cb + 1 < l.len() && l[cb + 1] == '(' {
                        proof {
                            assert(s[cb - i + 1] == l@[cb as int + 1]);
                        }
                        match find_char(l, cb + 2, ')') {
                            Some(cp) => {
                                if cp > cb + 2 {
                                    found = true;
                                    label_end = cb;
                                    target_end = cp;
                                    proof {
                                        assert(s.skip(cb - i + 2) =~= l@.skip(cb as int + 2));
                                    }
                                }
                            },
                            None => {
                                proof {
                                    assert(s.skip(cb - i + 2) =~= l@.skip(cb as int + 2));
                                }
                            },
                        }
                    }
                },
                None => {},
            }
        }
        if found {
            let mut r = slice_of(l, i + 1, label_end);
            let mut tail = strip_links_from(l, target_end + 1);
            r.append(&mut tail);
            proof {
                let cb = label_end as int - i - 1;
                let cp = target_end as int - cb - i - 3;
                assert(s.subrange(1, cb + 1) =~= l@.subrange(i as int + 1, label_end as int));
                assert(s.skip(cb + cp + 4) =~= l@.skip(target_end as int + 1));
                assert(r@ =~= strip_links(s));
            }
            r
        } else {
            let mut r = strip_links_from(l, i + 1);
            r.insert(0, l[i]);
            proof {
                assert(r@ =~= strip_links(s));
            }
            r
        }
    }
}

/// Image removal: every span `![alt](target)` with non-empty target is
/// removed entirely, alt text included, leftmost first.
pub open spec fn strip_images(s: Seq<char>) -> Seq<char>
    decreases s.len(),
{
    if s.len() == 0 {
        s
    } else if s.len() >= 2 && s[0] == '!' && s[1] == '[' {
        let cb = find_from(s.skip(2), ']');
        if cb >= 0 && cb + 3 < s.len() && s[cb + 3] == '(' {
            let cp = find_from(s.skip(cb + 4), ')');
            if cp >= 1 && cb + cp + 5 <= s.len() {
                strip_images(s.skip(cb + cp + 5))
            } else {
                seq![s[0]] + strip_images(s.drop_first())
            }
        } else {
            seq![s[0]] + strip_images(s.drop_first())
        }
    } else {
        seq![s[0]] + strip_images(s.drop_first())
    }
}

/// Executable image removal for the whole document.
pub fn strip_images_exec(l: &Vec<char>) -> (r: Vec<char>)
    ensures
        r@ == strip_images(l@),
{
    let r = strip_images_from(l, 0);
    proof {
        assert(l@.skip(0) =~= l@);
    }
    r
}

fn strip_images_from(l: &Vec<char>, i: usize) -> (r: Vec<char>)
    requires
        i <= l.len(),
    ensures
        r@ == strip_images(l@.skip(i as int)),
    decreases l.len() - i,
{
    let ghost s = l@.skip(i as int);
    if i == l.len() {
        let r: Vec<char> = Vec::new();
        proof {
            assert(s =~= Seq::<char>::empty());
        }
        r
    } else {
        proof {
            assert(s.drop_first() =~= l@.skip(i as int + 1));
        }
        let mut target_end: usize = 0;
        let mut found = false;
        if l[i] == '!' && i + 1 < l.len() && l[i + 1] == '[' {
            proof {
                assert(s.skip(2) =~= l@.skip(i as int + 2));
            }
            match find_char(l, i + 2, ']') {
                Some(cb) => {
                    // `cb` is the absolute index of the closing bracket.
                    if cb + 1 < l.len() && l[cb + 1] == '(' {
                        proof {
                            assert(s[cb - i + 1] == l@[cb as int + 1]);
                        }
                        match find_char(l, cb + 2, ')') {
                            Some(cp) => {
                                if cp > cb + 2 {
                                    found = true;
                                    target_end = cp;
                                    proof {
                                        assert(s.skip(cb - i + 2) =~= l@.skip(cb as int + 2));
                                    }
                                }
                            },
                            None => {
                                proof {
                                    assert(s.skip(cb - i + 2) =~= l@.skip(cb as int + 2));
                                }
                            },
                        }
                    }
                },
                None => {},
            }
        }
        if found {
            let r = strip_images_from(l, target_end + 1);
            proof {
                assert(s.skip(target_end as int + 1 - i) =~= l@.skip(target_end as int + 1));
            }
            r
        } else {
            let mut r = strip_images_from(l, i + 1);
            r.insert(0, l[i]);
            proof {
                assert(r@ =~= strip_images(s));
            }
            r
        }
    }
}

/// Emphasis marker strip, scanning from index `i`: `**`, any remaining `*`,
/// `__`, and a standalone underscore are removed; underscores inside
/// ordinary words stay.  A neighbour test always reads the text as it stood
/// before this rule removed anything.
pub open spec fn strip_emphasis_from(s: Seq<char>, i: int) -> Seq<char>
    decreases s.len() - i,
{
    if i < 0 || i >= s.len() {
        Seq::<char>::empty()
    } else if s[i] == '*' && i + 1 < s.len() && s[i + 1] == '*' {
        strip_emphasis_from(s, i + 2)
    } else if s[i] == '*' {
        strip_emphasis_from(s, i + 1)
    } else if s[i] == '_' && i + 1 < s.len() && s[i + 1] == '_' {
        strip_emphasis_from(s, i + 2)
    } else if s[i] == '_' && (i == 0 || !is_word_char(s[i - 1])) && (i + 1 == s.len()
        || !is_word_char(s[i + 1])) {
        strip_emphasis_from(s, i + 1)
    } else {
        seq![s[i]] + strip_emphasis_from(s, i + 1)
    }
}

/// Emphasis marker strip over the whole document.
pub open spec fn strip_emphasis(s: Seq<char>) -> Seq<char> {
    strip_emphasis_from(s, 0)
}

/// Executable emphasis marker strip for the whole document.
pub fn strip_emphasis_exec(l: &Vec<char>) -> (r: Vec<char>)
    ensures
        r@ == strip_emphasis(l@),
{
    let mut out: Vec<char> = Vec::new();
    let mut i: usize = 0;
    while i < l.len()
        invariant
            i <= l.len(),
            strip_emphasis(l@) == out@ + strip_emphasis_from(l@, i as int),
        decreases l.len() - i,
    {
        let c = l[i];
        if c == '*' && i + 1 < l.len() && l[i + 1] == '*' {
            i = i + 2;
        } else if c == '*' {
            i = i + 1;
        } else if c == '_' && i + 1 < l.len() && l[i + 1] == '_' {
            i = i + 2;
        } else if c == '_' && (i == 0 || !word_char(l[i - 1])) && (i + 1 == l.len() || !word_char(
            l[i + 1],
        )) {
            i = i + 1;
        } else {
            out.push(c);
            i = i + 1;
            proof {
                assert(out@ + strip_emphasis_from(l@, i as int) =~= out@.drop_last() + (seq![c]
                    + strip_emphasis_from(l@, i as int)));
            }
        }
    }
    proof {
        assert(out@ + strip_emphasis_from(l@, l@.len() as int) =~= out@);
    }
    out
}

/// Blank-run collapse: every run of newline characters keeps at most two of
/// them; shorter runs stay as they are.
pub open spec fn collapse_blanks(s: Seq<char>) -> Seq<char>
    decreases s.len(),
{
    if s.len() == 0 {
        s
    } else if s[0] == '\n' {
        let r = run_of(s, '\n');
        if 1 <= r <= s.len() {
            (if r >= 2 {
                seq!['\n', '\n']
            } else {
                seq!['\n']
            }) + collapse_blanks(s.skip(r))
        } else {
            s
        }
    } else {
        seq![s[0]] + collapse_blanks(s.drop_first())
    }
}

/// Executable blank-run collapse for the whole document.
pub fn collapse_blanks_exec(l: &Vec<char>) -> (r: Vec<char>)
    ensures
        r@ == collapse_blanks(l@),
{
    let mut out: Vec<char> = Vec::new();
    let mut i: usize = 0;
    proof {
        assert(l@.skip(0) =~= l@);
        assert(Seq::<char>::empty() + collapse_blanks(l@) =~= collapse_blanks(l@));
    }
    while i < l.len()
        invariant
            i <= l.len(),
            collapse_blanks(l@) == out@ + collapse_blanks(l@.skip(i as int)),
        decreases l.len() - i,
    {
        let ghost s = l@.skip(i as int);
        let ghost before = out@;
        if l[i] == '\n' {
            let r = run_len(l, i, '\n');
            proof {
                assert(s[0] == '\n');
                assert(run_of(s, '\n') == r);
                assert(run_of(s, '\n') == 1 + run_of(s.drop_first(), '\n'));
                crate::scan::lemma_run_of_bounds(s.drop_first(), '\n');
                assert(r >= 1);
                assert(s.skip(r as int) =~= l@.skip(i as int + r as int));
            }
            out.push('\n');
            if r >= 2 {
                out.push('\n');
            }
            i = i + r;
            proof {
                if r >= 2 {
                    assert(before + collapse_blanks(s) =~= out@ + collapse_blanks(
                        l@.skip(i as int),
                    ));
                } else {
                    assert(before + collapse_blanks(s) =~= out@ + collapse_blanks(
                        l@.skip(i as int),
                    ));
                }
            }
        } else {
            proof {
                assert(s.drop_first() =~= l@.skip(i as int + 1));
            }
            out.push(l[i]);
            i = i + 1;
            proof {
                assert(before + collapse_blanks(s) =~= out@ + collapse_blanks(l@.skip(i as int)));
            }
        }
    }
    proof {
        assert(l@.skip(l@.len() as int) =~= Seq::<char>::empty());
        assert(out@ + collapse_blanks(Seq::<char>::empty()) =~= out@);
    }
    out
}

/// Final trim: leading and trailing whitespace of the whole document is
/// removed.
pub open spec fn trim_doc(s: Seq<char>) -> Seq<char> {
    trim_end_by(trim_start_by(s, space_class()), space_class())
}

/// Executable final trim.
pub fn trim_doc_exec(l: &Vec<char>) -> (r: Vec<char>)
    ensures
        r@ == trim_doc(l@),
{
    let mut a: usize = 0;
    while a < l.len() && space(l[a])
        invariant
            a <= l.len(),
            forall|m: int| 0 <= m < a ==> is_space(l@[m]),
        decreases l.len() - a,
    {
        a = a + 1;
    }
    if a == l.len() {
        proof {
            lemma_trim_both_by_is(l@, space_class(), a as int, a as int);
        }
        let r: Vec<char> = Vec::new();
        return r;
    }
    let mut b: usize = l.len();
    while b > a + 1 && space(l[b - 1])
        invariant
            a < b <= l.len(),
            forall|m: int| b <= m < l@.len() ==> is_space(l@[m]),
        decreases b,
    {
        b = b - 1;
    }
    proof {
        // At the loop exit either the scan stopped on a non-space, or it ran
        // down to a + 1, and l[a] is not a space.
        assert(!is_space(l@[b - 1]));
        lemma_trim_both_by_is(l@, space_class(), a as int, b as int);
    }
    slice_of(l, a, b)
}

/// Every character inside the leading run equals the run character.
pub proof fn lemma_run_of_prefix(s: Seq<char>, c: char)
    ensures
        forall|m: int| 0 <= m < run_of(s, c) ==> s[m] == c,
    decreases s.len(),
{
    if s.len() > 0 && s[0] == c {
        lemma_run_of_prefix(s.drop_first(), c);
        crate::scan::lemma_run_of_bounds(s.drop_first(), c);
        assert forall|m: int| 0 <= m < run_of(s, c) implies s[m] == c by {
            if m > 0 {
                assert(s.drop_first()[m - 1] == s[m]);
            }
        }
    }
}

/// A line without backticks passes the inline code strip unchanged.
pub proof fn lemma_strip_inline_id(l: Seq<char>)
    requires
        forall|i: int| 0 <= i < l.len() ==> l[i] != '`',
    ensures
        strip_inline(l) == l,
    decreases l.len(),
{
    if l.len() > 0 {
        assert forall|i: int| 0 <= i < l.drop_first().len() implies l.drop_first()[i] != '`' by {
            assert(l.drop_first()[i] == l[i + 1]);
        }
        lemma_strip_inline_id(l.drop_first());
        assert(strip_inline(l) =~= l);
    }
}

/// A document without backticks passes the fenced block strip unchanged.
pub proof fn lemma_strip_fences_id(s: Seq<char>)
    requires
        forall|i: int| 0 <= i < s.len() ==> s[i] != '`',
    ensures
        strip_fences(s) == s,
    decreases s.len(),
{
    if s.len() > 0 {
        assert(!fence_at(s, 0));
        assert forall|i: int| 0 <= i < s.drop_first().len() implies s.drop_first()[i] != '`' by {
            assert(s.drop_first()[i] == s[i + 1]);
        }
        lemma_strip_fences_id(s.drop_first());
        assert(strip_fences(s) =~= s);
    }
}

/// A document without opening brackets passes the link unwrap unchanged.
pub proof fn lemma_strip_links_id(s: Seq<char>)
    requires
        forall|i: int| 0 <= i < s.len() ==> s[i] != '[',
    ensures
        strip_links(s) == s,
    decreases s.len(),
{
    if s.len() > 0 {
        assert forall|i: int| 0 <= i < s.drop_first().len() implies s.drop_first()[i] != '[' by {
            assert(s.drop_first()[i] == s[i + 1]);
        }
        lemma_strip_links_id(s.drop_first());
        assert(strip_links(s) =~= s);
    }
}

/// A document without opening brackets passes the image removal unchanged.
pub proof fn lemma_strip_images_id(s: Seq<char>)
    requires
        forall|i: int| 0 <= i < s.len() ==> s[i] != '[',
    ensures
        strip_images(s) == s,
    decreases s.len(),
{
    if s.len() > 0 {
        assert forall|i: int| 0 <= i < s.drop_first().len() implies s.drop_first()[i] != '[' by {
            assert(s.drop_first()[i] == s[i + 1]);
        }
        lemma_strip_images_id(s.drop_first());
        assert(strip_images(s) =~= s);
    }
}

/// A document without asterisks, whose every underscore sits between word
/// characters and is not doubled, passes the emphasis strip unchanged.
pub proof fn lemma_strip_emphasis_id(s: Seq<char>)
    requires
        forall|i: int| 0 <= i < s.len() ==> s[i] != '*',
        forall|i: int|
            0 <= i < s.len() && #[trigger] s[i] == '_' ==> 0 < i && i + 1 < s.len()
                && is_word_char(s[i - 1]) && is_word_char(s[i + 1]) && s[i + 1] != '_',
    ensures
        strip_emphasis(s) == s,
{
    lemma_strip_emphasis_id_from(s, 0);
    assert(s.skip(0) =~= s);
}

proof fn lemma_strip_emphasis_id_from(s: Seq<char>, i: int)
    requires
        0 <= i <= s.len(),
        forall|m: int| 0 <= m < s.len() ==> s[m] != '*',
        forall|m: int|
            0 <= m < s.len() && #[trigger] s[m] == '_' ==> 0 < m && m + 1 < s.len()
                && is_word_char(s[m - 1]) && is_word_char(s[m + 1]) && s[m + 1] != '_',
    ensures
        strip_emphasis_from(s, i) == s.skip(i),
    decreases s.len() - i,
{
    if i >= s.len() {
        assert(s.skip(i) =~= Seq::<char>::empty());
    } else {
        lemma_strip_emphasis_id_from(s, i + 1);
        assert(strip_emphasis_from(s, i) =~= s.skip(i));
    }
}

/// A document without a run of three newlines passes the blank-run collapse
/// unchanged.
pub proof fn lemma_collapse_blanks_id(s: Seq<char>)
    requires
        forall|i: int|
            0 <= i && i + 2 < s.len() ==> !(#[trigger] s[i] == '\n' && s[i + 1] == '\n' && s[i + 2]
                == '\n'),
    ensures
        collapse_blanks(s) == s,
    decreases s.len(),
{
    if s.len() == 0 {
    } else if s[0] == '\n' {
        let r = run_of(s, '\n');
        crate::scan::lemma_run_of_bounds(s, '\n');
        lemma_run_of_prefix(s, '\n');
        assert(run_of(s, '\n') == 1 + run_of(s.drop_first(), '\n'));
        crate::scan::lemma_run_of_bounds(s.drop_first(), '\n');
        if r >= 3 {
            assert(s[0] == '\n' && s[1] == '\n' && s[2] == '\n');
            assert(false);
        }
        assert forall|i: int|
            0 <= i && i + 2 < s.skip(r).len() implies !(#[trigger] s.skip(r)[i] == '\n' && s.skip(
            r,
        )[i + 1] == '\n' && s.skip(r)[i + 2] == '\n') by {
            assert(s.skip(r)[i] == s[r + i]);
            assert(s.skip(r)[i + 1] == s[r + i + 1]);
            assert(s.skip(r)[i + 2] == s[r + i + 2]);
        }
        lemma_collapse_blanks_id(s.skip(r));
        if r == 1 {
            assert(collapse_blanks(s) =~= s);
        } else {
            // r == 2: the run boundary gives s[0] and s[1] as the kept pair.
            assert(s[1] == '\n');
            assert(collapse_blanks(s) =~= s);
        }
    } else {
        assert forall|i: int|
            0 <= i && i + 2 < s.drop_first().len() implies !(#[trigger] s.drop_first()[i] == '\n'
            && s.drop_first()[i + 1] == '\n' && s.drop_first()[i + 2] == '\n') by {
            assert(s.drop_first()[i] == s[i + 1]);
            assert(s.drop_first()[i + 1] == s[i + 2]);
            assert(s.drop_first()[i + 2] == s[i + 3]);
        }
        lemma_collapse_blanks_id(s.drop_first());
        assert(collapse_blanks(s) =~= s);
    }
}

} // verus!

