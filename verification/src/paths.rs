//! Derived output paths and directory-listing text.
//!
//! The normalized text of a Markdown file is written to a sibling file whose
//! trailing `.md` or `.markdown` suffix is replaced by `.txt`; a path with
//! neither suffix gets `.txt` appended.

use vstd::prelude::*;

verus! {

use crate::chars::chars_vec;
use crate::chars::string_of;
use crate::chars::slice_of;
use crate::lines::copy_chars;

/// Whether `s` ends with the suffix `suf`.
pub open spec fn ends_with(s: Seq<char>, suf: Seq<char>) -> bool {
    s.len() >= suf.len() && s.skip(s.len() - suf.len()) == suf
}

/// The sibling text-file path: a trailing `.md` or `.markdown` suffix is
/// replaced by `.txt`; otherwise `.txt` is appended.
pub open spec fn derived_txt_path(p: Seq<char>) -> Seq<char> {
    if ends_with(p, ".md"@) {
        p.take(p.len() - 3) + ".txt"@
    } else if ends_with(p, ".markdown"@) {
        p.take(p.len() - 9) + ".txt"@
    } else {
        p + ".txt"@
    }
}

/// Whether the characters of `v` end with the characters of `suf`.
fn chars_end_with(v: &Vec<char>, suf: &Vec<char>) -> (r: bool)
    ensures
        r == ends_with(v@, suf@),
{
    if v.len() < suf.len() {
        return false;
    }
    let start: usize = v.len() - suf.len();
    let tail = slice_of(v, start, v.len());
    proof {
        assert(tail@ =~= v@.skip(start as int));
    }
    crate::chars::chars_eq(&tail, suf)
}

/// The path of the text file derived from the given Markdown path.
pub fn txt_path_for(markdown_path: &str) -> (r: String)
    ensures
        r@ == derived_txt_path(markdown_path@),
{
    proof {
        reveal_strlit(".md");
        reveal_strlit(".markdown");
        reveal_strlit(".txt");
    }
    let p = chars_vec(markdown_path);
    let md = chars_vec(".md");
    let markdown = chars_vec(".markdown");
    let txt = chars_vec(".txt");
    let mut stem: Vec<char>;
    if chars_end_with(&p, &md) {
        stem = slice_of(&p, 0, p.len() - 3);
        proof {
            assert(stem@ =~= p@.take(p@.len() - 3));
        }
    } else if chars_end_with(&p, &markdown) {
        stem = slice_of(&p, 0, p.len() - 9);
        proof {
            assert(stem@ =~= p@.take(p@.len() - 9));
        }
    } else {
        stem = slice_of(&p, 0, p.len());
        proof {
            assert(stem@ =~= p@);
        }
    }
    copy_chars(&mut stem, &txt);
    string_of(&stem)
}

/// The newline-joined listing text: each name, in order, followed by a
/// newline character.
pub open spec fn joined_names(ns: Seq<Seq<char>>) -> Seq<char>
    decreases ns.len(),
{
    if ns.len() == 0 {
        Seq::<char>::empty()
    } else {
        ns[0] + seq!['\n'] + joined_names(ns.drop_first())
    }
}

/// Joins file names into one listing, one name per line.
pub fn join_file_names(names: &Vec<String>) -> (r: String)
    ensures
        r@ == joined_names(names.deep_view()),
{
    let ghost ns = names.deep_view();
    let mut out: Vec<char> = Vec::new();
    let mut i: usize = 0;
    proof {
        assert(ns.skip(0) =~= ns);
        assert(Seq::<char>::empty() + joined_names(ns) =~= joined_names(ns));
    }
    while i < names.len()
        invariant
            i <= names.len(),
            ns == names.deep_view(),
            joined_names(ns) == out@ + joined_names(ns.skip(i as int)),
        decreases names.len() - i,
    {
        let ghost before = out@;
        let name = chars_vec(names[i].as_str());
        copy_chars(&mut out, &name);
        out.push('\n');
        proof {
            assert(name@ == ns[i as int]);
            assert(ns.skip(i as int).drop_first() =~= ns.skip(i as int + 1));
            assert(ns.skip(i as int)[0] == ns[i as int]);
            assert(before + joined_names(ns.skip(i as int)) =~= out@ + joined_names(
                ns.skip(i as int + 1),
            ));
        }
        i = i + 1;
    }
    proof {
        assert(ns.skip(ns.len() as int) =~= Seq::<Seq<char>>::empty());
        assert(out@ + joined_names(Seq::<Seq<char>>::empty()) =~= out@);
    }
    string_of(&out)
}

} // verus!
