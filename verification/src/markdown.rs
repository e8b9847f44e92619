//! The Markdown normalizer: an ordered pipeline of rewrite rules.  Later
//! rules operate on the output of earlier rules; the order is load-bearing.

use vstd::prelude::*;

verus! {

use crate::chars::chars_vec;
use crate::chars::string_of;
use crate::lines::lines_of;
use crate::lines::join_lines;
use crate::lines::split_lines;
use crate::lines::join_lines_exec;
use crate::rules::header_line;
use crate::rules::header_line_exec;
use crate::rules::strip_inline;
use crate::rules::strip_inline_exec;
use crate::rules::blockquote_line;
use crate::rules::blockquote_line_exec;
use crate::rules::unordered_item_line;
use crate::rules::unordered_item_line_exec;
use crate::rules::ordered_item_line;
use crate::rules::ordered_item_line_exec;
use crate::rules::is_hr_line;
use crate::rules::is_hr_line_exec;
use crate::rules::strip_fences;
use crate::rules::strip_fences_exec;
use crate::rules::strip_links;
use crate::rules::strip_links_exec;
use crate::rules::strip_images;
use crate::rules::strip_images_exec;
use crate::rules::strip_emphasis;
use crate::rules::strip_emphasis_exec;
use crate::rules::collapse_blanks;
use crate::rules::collapse_blanks_exec;
use crate::rules::trim_doc;
use crate::rules::trim_doc_exec;

/// The line-anchored rules: each is applied to every physical line on its
/// own.
#[derive(Clone, Copy)]
pub enum LineRule {
    Header,
    InlineCode,
    Blockquote,
    UnorderedItem,
    OrderedItem,
}

/// What the given rule does to one line.
pub open spec fn apply_line_rule(r: LineRule, l: Seq<char>) -> Seq<char> {
    match r {
        LineRule::Header => header_line(l),
        LineRule::InlineCode => strip_inline(l),
        LineRule::Blockquote => blockquote_line(l),
        LineRule::UnorderedItem => unordered_item_line(l),
        LineRule::OrderedItem => ordered_item_line(l),
    }
}

/// The lines of the document, each rewritten by the given rule.
pub open spec fn mapped_lines(r: LineRule, s: Seq<char>) -> Seq<Seq<char>> {
    lines_of(s).map_values(|l: Seq<char>| apply_line_rule(r, l))
}

/// One line-anchored pass over the whole document.
pub open spec fn line_rule_pass(r: LineRule, s: Seq<char>) -> Seq<char> {
    join_lines(mapped_lines(r, s))
}

/// Executable form of one line rule on one line.
pub fn apply_line_rule_exec(r: LineRule, l: &Vec<char>) -> (t: Vec<char>)
    ensures
        t@ == apply_line_rule(r, l@),
{
    match r {
        LineRule::Header => header_line_exec(l),
        LineRule::InlineCode => strip_inline_exec(l),
        LineRule::Blockquote => blockquote_line_exec(l),
        LineRule::UnorderedItem => unordered_item_line_exec(l),
        LineRule::OrderedItem => ordered_item_line_exec(l),
    }
}

/// Executable form of one line-anchored pass over the whole document.
pub fn line_rule_pass_exec(r: LineRule, doc: &Vec<char>) -> (t: Vec<char>)
    ensures
        t@ == line_rule_pass(r, doc@),
{
    let ls = split_lines(doc);
    let ghost mv = mapped_lines(r, doc@);
    let mut out: Vec<Vec<char>> = Vec::new();
    let mut i: usize = 0;
    proof {
        assert(out.deep_view() =~= mv.take(0));
    }
    while i < ls.len()
        invariant
            i <= ls.len(),
            ls.deep_view() == lines_of(doc@),
            mv == mapped_lines(r, doc@),
            out.deep_view() == mv.take(i as int),
        decreases ls.len() - i,
    {
        let t = apply_line_rule_exec(r, &ls[i]);
        let ghost before = out.deep_view();
        let ghost tv = t@;
        proof {
            assert(t.deep_view() =~= t@);
            assert(ls@[i as int].deep_view() =~= ls@[i as int]@);
            assert(ls@[i as int].deep_view() == lines_of(doc@)[i as int]);
            assert(mv[i as int] == apply_line_rule(r, lines_of(doc@)[i as int]));
            assert(tv == mv[i as int]);
        }
        out.push(t);
        i = i + 1;
        proof {
            let nd = out.deep_view();
            let tk = mv.take(i as int);
            assert(out@.len() == before.len() + 1);
            assert forall|k: int| 0 <= k < nd.len() implies nd[k] == tk[k] by {
                if k < i - 1 {
                    assert(out@[k] == out@.drop_last()[k]);
                    assert(nd[k] == before[k]);
                } else {
                    assert(nd[k] == out@[k].deep_view());
                }
            }
            assert(nd =~= tk);
        }
    }
    proof {
        assert(mv.take(mv.len() as int) =~= mv);
    }
    join_lines_exec(&out)
}

/// The test a line must pass to survive the horizontal-rule pass.
pub open spec fn hr_keep() -> spec_fn(Seq<char>) -> bool {
    |l: Seq<char>| !is_hr_line(l)
}

/// The horizontal-rule pass: every line that is a horizontal rule is deleted
/// entirely.
pub open spec fn hr_pass(s: Seq<char>) -> Seq<char> {
    join_lines(lines_of(s).filter(hr_keep()))
}

/// Executable horizontal-rule pass.
pub fn hr_pass_exec(doc: &Vec<char>) -> (t: Vec<char>)
    ensures
        t@ == hr_pass(doc@),
{
    let ls = split_lines(doc);
    let ghost lv = lines_of(doc@);
    let ghost p = hr_keep();
    let mut out: Vec<Vec<char>> = Vec::new();
    let mut i: usize = 0;
    proof {
        assert(lv.take(0) =~= Seq::<Seq<char>>::empty());
        assert(out.deep_view() =~= lv.take(0).filter(p));
    }
    while i < ls.len()
        invariant
            i <= ls.len(),
            ls.deep_view() == lv,
            lv == lines_of(doc@),
            p == hr_keep(),
            out.deep_view() == lv.take(i as int).filter(p),
        decreases ls.len() - i,
    {
        let keep = !is_hr_line_exec(&ls[i]);
        let ghost before = out.deep_view();
        proof {
            assert(ls@[i as int].deep_view() =~= ls@[i as int]@);
            assert(ls@[i as int].deep_view() == lv[i as int]);
            assert(keep == p(lv[i as int]));
            assert(lv.take(i as int + 1).drop_last() =~= lv.take(i as int));
            assert(lv.take(i as int + 1).last() == lv[i as int]);
            if !keep {
                reveal_with_fuel(Seq::filter, 2);
                assert(lv.take(i as int + 1).filter(p) == before);
            }
        }
        if keep {
            let mut line = Vec::new();
            crate::lines::copy_chars(&mut line, &ls[i]);
            let ghost linev = line@;
            proof {
                reveal_with_fuel(Seq::filter, 2);
                assert(line.deep_view() =~= line@);
                assert(linev == lv[i as int]);
                assert(lv.take(i as int + 1).filter(p) == before.push(lv[i as int]));
            }
            out.push(line);
            proof {
                let nd = out.deep_view();
                let tk = before.push(lv[i as int]);
                assert forall|k: int| 0 <= k < nd.len() implies nd[k] == tk[k] by {
                    if k < nd.len() - 1 {
                        assert(out@[k] == out@.drop_last()[k]);
                        assert(nd[k] == before[k]);
                    } else {
                        assert(nd[k] == out@[k].deep_view());
                    }
                }
                assert(nd =~= tk);
            }
        }
        i = i + 1;
    }
    proof {
        assert(lv.take(lv.len() as int) =~= lv);
    }
    join_lines_exec(&out)
}

/// The normalized form of a Markdown document: the ordered pipeline of all
/// rewrite rules.  Header unwrap, inline code strip, fenced block strip, link
/// unwrap, image removal, emphasis strip, horizontal rule removal, blockquote
/// strip, list marker strips, blank-run collapse, and the final trim, in that
/// order.
pub open spec fn normalize_spec(s: Seq<char>) -> Seq<char> {
    let a = line_rule_pass(LineRule::Header, s);
    let b = line_rule_pass(LineRule::InlineCode, a);
    let c = strip_fences(b);
    let d = strip_links(c);
    let e = strip_images(d);
    let f = strip_emphasis(e);
    let g = hr_pass(f);
    let h = line_rule_pass(LineRule::Blockquote, g);
    let i = line_rule_pass(LineRule::UnorderedItem, h);
    let j = line_rule_pass(LineRule::OrderedItem, i);
    let k = collapse_blanks(j);
    trim_doc(k)
}

/// Normalizes a Markdown document held as a character vector.
pub fn normalize_chars(doc: &Vec<char>) -> (t: Vec<char>)
    ensures
        t@ == normalize_spec(doc@),
{
    let a = line_rule_pass_exec(LineRule::Header, doc);
    let b = line_rule_pass_exec(LineRule::InlineCode, &a);
    let c = strip_fences_exec(&b);
    let d = strip_links_exec(&c);
    let e = strip_images_exec(&d);
    let f = strip_emphasis_exec(&e);
    let g = hr_pass_exec(&f);
    let h = line_rule_pass_exec(LineRule::Blockquote, &g);
    let i = line_rule_pass_exec(LineRule::UnorderedItem, &h);
    let j = line_rule_pass_exec(LineRule::OrderedItem, &i);
    let k = collapse_blanks_exec(&j);
    trim_doc_exec(&k)
}

/// Normalizes Markdown text to plain text.
pub fn normalize_markdown(input: &str) -> (r: String)
    ensures
        r@ == normalize_spec(input@),
{
    let v = chars_vec(input);
    let n = normalize_chars(&v);
    string_of(&n)
}

/// A line that no line-anchored rule rewrites: no header marker, no
/// horizontal rule, no blockquote marker, no list marker of either style.
pub open spec fn plain_line(l: Seq<char>) -> bool {
    &&& ({
        let k = crate::scan::run_of(l, '#');
        !(1 <= k <= 6 && k < l.len() && l[k] == ' ')
    })
    &&& !is_hr_line(l)
    &&& !(l.len() >= 2 && l[0] == '>' && crate::chars::is_line_space(l[1]))
    &&& !({
        let t = crate::scan::trim_start_by(l, crate::rules::line_space_class());
        t.len() >= 2 && (t[0] == '-' || t[0] == '*' || t[0] == '+') && crate::chars::is_line_space(
            t[1],
        )
    })
    &&& !({
        let t = crate::scan::trim_start_by(l, crate::rules::line_space_class());
        let d = crate::scan::run_by(t, crate::rules::digit_class());
        d >= 1 && d + 2 <= t.len() && t[d] == '.' && crate::chars::is_line_space(t[d + 1])
    })
}

/// Plain text: no Markdown construct that any rule of the pipeline rewrites.
/// Every line is plain, and the document holds no backtick, no opening
/// bracket, no asterisk, no underscore outside the inside of a word, and no
/// run of three newlines.
pub open spec fn plain_text(s: Seq<char>) -> bool {
    &&& forall|i: int| 0 <= i < lines_of(s).len() ==> plain_line(#[trigger] lines_of(s)[i])
    &&& forall|i: int| 0 <= i < s.len() ==> #[trigger] s[i] != '`'
    &&& forall|i: int| 0 <= i < s.len() ==> #[trigger] s[i] != '['
    &&& forall|i: int| 0 <= i < s.len() ==> #[trigger] s[i] != '*'
    &&& forall|i: int|
        0 <= i < s.len() && #[trigger] s[i] == '_' ==> 0 < i && i + 1 < s.len()
            && crate::chars::is_word_char(s[i - 1]) && crate::chars::is_word_char(s[i + 1]) && s[i
            + 1] != '_'
    &&& forall|i: int|
        0 <= i && i + 2 < s.len() ==> !(#[trigger] s[i] == '\n' && s[i + 1] == '\n' && s[i + 2]
            == '\n')
}

/// A line-anchored pass that rewrites no line of the document leaves the
/// document unchanged.
pub proof fn lemma_line_pass_identity(r: LineRule, s: Seq<char>)
    requires
        forall|i: int|
            0 <= i < lines_of(s).len() ==> apply_line_rule(r, #[trigger] lines_of(s)[i])
                == lines_of(s)[i],
    ensures
        line_rule_pass(r, s) == s,
{
    assert(mapped_lines(r, s) =~= lines_of(s));
    crate::lines::lemma_join_lines_of(s);
}

/// Idempotence on plain text: normalizing text that holds no Markdown
/// construct returns it unchanged, except for trimming the leading and
/// trailing whitespace of the whole document.
pub proof fn lemma_normalize_plain(s: Seq<char>)
    requires
        plain_text(s),
    ensures
        normalize_spec(s) == trim_doc(s),
{
    lemma_line_pass_identity(LineRule::Header, s);
    crate::lines::lemma_lines_chars(s, |c: char| c != '`');
    assert forall|i: int|
        0 <= i < lines_of(s).len() implies apply_line_rule(
        LineRule::InlineCode,
        #[trigger] lines_of(s)[i],
    ) == lines_of(s)[i] by {
        let l = lines_of(s)[i];
        assert(forall|j: int| 0 <= j < l.len() ==> l[j] != '`');
        crate::rules::lemma_strip_inline_id(l);
    }
    lemma_line_pass_identity(LineRule::InlineCode, s);
    crate::rules::lemma_strip_fences_id(s);
    crate::rules::lemma_strip_links_id(s);
    crate::rules::lemma_strip_images_id(s);
    crate::rules::lemma_strip_emphasis_id(s);
    assert forall|i: int| 0 <= i < lines_of(s).len() implies hr_keep()(#[trigger] lines_of(s)[i])
        by {
        assert(plain_line(lines_of(s)[i]));
    }
    crate::lines::lemma_filter_all(lines_of(s), hr_keep());
    crate::lines::lemma_join_lines_of(s);
    assert(hr_pass(s) == s);
    lemma_line_pass_identity(LineRule::Blockquote, s);
    lemma_line_pass_identity(LineRule::UnorderedItem, s);
    lemma_line_pass_identity(LineRule::OrderedItem, s);
    crate::rules::lemma_collapse_blanks_id(s);
}

} // verus!
