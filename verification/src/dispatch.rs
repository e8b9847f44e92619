//! Argument construction for the external converter process.
//!
//! The converter is invoked with, in order: a mode flag (`--image` or
//! `--video`), the source path, the operation tag, then operation-specific
//! arguments, and for image operations an optional trailing `--webp` flag.
//! Fields irrelevant to the selected operation are ignored, never erroring.

use vstd::prelude::*;

verus! {

use vstd::string::StringExecFns;
use crate::chars::chars_vec;
use crate::chars::str_is;

/// One optional positional argument: present exactly when the field was
/// supplied.
pub open spec fn opt_arg(o: Option<Seq<char>>) -> Seq<Seq<char>> {
    match o {
        Option::Some(s) => seq![s],
        Option::None => seq![],
    }
}

/// The trailing format flag: present exactly when WebP output was requested.
pub open spec fn webp_flag(w: Option<bool>) -> Seq<Seq<char>> {
    if w == Some(true) {
        seq!["--webp"@]
    } else {
        seq![]
    }
}

/// The operation-specific tail of an image conversion command.
pub open spec fn image_tail_spec(
    ct: Seq<char>,
    w: Option<Seq<char>>,
    h: Option<Seq<char>>,
    a: Option<Seq<char>>,
    webp: Option<bool>,
) -> Seq<Seq<char>> {
    if ct == "resize"@ {
        opt_arg(w) + webp_flag(webp)
    } else if ct == "resize-height"@ {
        opt_arg(h) + webp_flag(webp)
    } else if ct == "aspect-ratio"@ {
        opt_arg(a) + webp_flag(webp)
    } else if ct == "square700"@ || ct == "square300"@ {
        webp_flag(webp)
    } else {
        opt_arg(w) + opt_arg(a)
    }
}

/// The full argument sequence of an image conversion command.
pub open spec fn image_args_spec(
    path: Seq<char>,
    ct: Seq<char>,
    w: Option<Seq<char>>,
    h: Option<Seq<char>>,
    a: Option<Seq<char>>,
    webp: Option<bool>,
) -> Seq<Seq<char>> {
    seq!["--image"@, path, ct] + image_tail_spec(ct, w, h, a, webp)
}

/// The full argument sequence of an overlay command: always the same five
/// tokens, in this order.
pub open spec fn overlay_args_spec(base: Seq<char>, overlay: Seq<char>, option: Seq<char>) -> Seq<
    Seq<char>,
> {
    seq!["--image"@, base, "overlay"@, overlay, option]
}

/// The full argument sequence of a video conversion command: always the same
/// five tokens, in this order; all fields are required.
pub open spec fn video_args_spec(
    path: Seq<char>,
    aspect: Seq<char>,
    resolution: Seq<char>,
    compression: Seq<char>,
) -> Seq<Seq<char>> {
    seq!["--video"@, path, aspect, resolution, compression]
}

/// Builds the argument sequence for an image conversion, applying the
/// per-operation inclusion rules: an optional field is appended exactly when
/// it is supplied and the selected operation consults it.
pub fn convert_image_args(
    image_path: &String,
    conversion_type: &String,
    target_width: &Option<String>,
    target_height: &Option<String>,
    aspect_ratio: &Option<String>,
    convert_to_webp: &Option<bool>,
) -> (r: Vec<String>)
    ensures
        r.deep_view() == image_args_spec(
            image_path@,
            conversion_type@,
            target_width.deep_view(),
            target_height.deep_view(),
            aspect_ratio.deep_view(),
            *convert_to_webp,
        ),
{
    let mut args: Vec<String> = Vec::new();
    args.push(String::from_str("--image"));
    args.push(image_path.clone());
    args.push(conversion_type.clone());
    let ctv = chars_vec(conversion_type.as_str());
    if str_is("resize", &ctv) {
        push_opt(&mut args, target_width);
        push_webp(&mut args, convert_to_webp);
    } else if str_is("resize-height", &ctv) {
        push_opt(&mut args, target_height);
        push_webp(&mut args, convert_to_webp);
    } else if str_is("aspect-ratio", &ctv) {
        push_opt(&mut args, aspect_ratio);
        push_webp(&mut args, convert_to_webp);
    } else if str_is("square700", &ctv) || str_is("square300", &ctv) {
        push_webp(&mut args, convert_to_webp);
    } else {
        push_opt(&mut args, target_width);
        push_opt(&mut args, aspect_ratio);
    }
    proof {
        assert(args.deep_view() =~~= image_args_spec(
            image_path@,
            conversion_type@,
            target_width.deep_view(),
            target_height.deep_view(),
            aspect_ratio.deep_view(),
            *convert_to_webp,
        ));
    }
    args
}

/// Appends the optional field when it is supplied, and nothing otherwise.
fn push_opt(args: &mut Vec<String>, o: &Option<String>)
    ensures
        final(args).deep_view() == old(args).deep_view() + opt_arg(o.deep_view()),
{
    match o {
        Some(s) => {
            args.push(s.clone());
        },
        None => {},
    }
    proof {
        assert(final(args).deep_view() =~~= old(args).deep_view() + opt_arg(o.deep_view()));
    }
}

/// Appends the `--webp` flag exactly when WebP output was requested.
fn push_webp(args: &mut Vec<String>, w: &Option<bool>)
    ensures
        final(args).deep_view() == old(args).deep_view() + webp_flag(*w),
{
    let requested: bool = match w {
        Some(b) => *b,
        None => false,
    };
    if requested {
        args.push(String::from_str("--webp"));
    }
    proof {
        assert(final(args).deep_view() =~~= old(args).deep_view() + webp_flag(*w));
    }
}

/// Builds the argument sequence for an overlay composition: always five
/// tokens, whatever the field values.
pub fn overlay_image_args(
    base_image_path: &String,
    overlay_image_path: &String,
    overlay_option: &String,
) -> (r: Vec<String>)
    ensures
        r.deep_view() == overlay_args_spec(
            base_image_path@,
            overlay_image_path@,
            overlay_option@,
        ),
{
    let mut args: Vec<String> = Vec::new();
    args.push(String::from_str("--image"));
    args.push(base_image_path.clone());
    args.push(String::from_str("overlay"));
    args.push(overlay_image_path.clone());
    args.push(overlay_option.clone());
    proof {
        assert(args.deep_view() =~~= overlay_args_spec(
            base_image_path@,
            overlay_image_path@,
            overlay_option@,
        ));
    }
    args
}

/// Builds the argument sequence for a video conversion: always five tokens,
/// whatever the field values; all four fields are required.
pub fn convert_video_args(
    video_path: &String,
    aspect_ratio: &String,
    resolution: &String,
    compression: &String,
) -> (r: Vec<String>)
    ensures
        r.deep_view() == video_args_spec(video_path@, aspect_ratio@, resolution@, compression@),
{
    let mut args: Vec<String> = Vec::new();
    args.push(String::from_str("--video"));
    args.push(video_path.clone());
    args.push(aspect_ratio.clone());
    args.push(resolution.clone());
    args.push(compression.clone());
    proof {
        assert(args.deep_view() =~~= video_args_spec(
            video_path@,
            aspect_ratio@,
            resolution@,
            compression@,
        ));
    }
    args
}

/// For each image operation, an optional field is omitted from the argument
/// sequence if and only if it was not supplied: the sequence is exactly the
/// fixed prefix, then the operation's own optional argument when present,
/// then the format flag when requested.
pub proof fn lemma_image_args_omit_iff(
    path: Seq<char>,
    ct: Seq<char>,
    w: Option<Seq<char>>,
    h: Option<Seq<char>>,
    a: Option<Seq<char>>,
    webp: Option<bool>,
)
    ensures
        ct == "resize"@ ==> image_args_spec(path, ct, w, h, a, webp) == seq!["--image"@, path, ct]
            + opt_arg(w) + webp_flag(webp),
        ct == "resize-height"@ ==> image_args_spec(path, ct, w, h, a, webp) == seq![
            "--image"@,
            path,
            ct,
        ] + opt_arg(h) + webp_flag(webp),
        ct == "aspect-ratio"@ ==> image_args_spec(path, ct, w, h, a, webp) == seq![
            "--image"@,
            path,
            ct,
        ] + opt_arg(a) + webp_flag(webp),
        ct == "square700"@ || ct == "square300"@ ==> image_args_spec(path, ct, w, h, a, webp)
            == seq!["--image"@, path, ct] + webp_flag(webp),
{
    reveal_strlit("resize");
    reveal_strlit("resize-height");
    reveal_strlit("aspect-ratio");
    reveal_strlit("square700");
    reveal_strlit("square300");
    assert("resize"@.len() == 6);
    assert("resize-height"@.len() == 13);
    assert("aspect-ratio"@.len() == 12);
    assert("square700"@.len() == 9);
    assert("square300"@.len() == 9);
}

/// For each image operation, fields that the operation does not consult never
/// change the produced argument sequence.
pub proof fn lemma_image_args_irrelevant_ignored(
    path: Seq<char>,
    ct: Seq<char>,
    w1: Option<Seq<char>>,
    h1: Option<Seq<char>>,
    a1: Option<Seq<char>>,
    w2: Option<Seq<char>>,
    h2: Option<Seq<char>>,
    a2: Option<Seq<char>>,
    webp: Option<bool>,
)
    ensures
        ct == "resize"@ && w1 == w2 ==> image_args_spec(path, ct, w1, h1, a1, webp)
            == image_args_spec(path, ct, w2, h2, a2, webp),
        ct == "resize-height"@ && h1 == h2 ==> image_args_spec(path, ct, w1, h1, a1, webp)
            == image_args_spec(path, ct, w2, h2, a2, webp),
        ct == "aspect-ratio"@ && a1 == a2 ==> image_args_spec(path, ct, w1, h1, a1, webp)
            == image_args_spec(path, ct, w2, h2, a2, webp),
        ct == "square700"@ || ct == "square300"@ ==> image_args_spec(path, ct, w1, h1, a1, webp)
            == image_args_spec(path, ct, w2, h2, a2, webp),
{
    reveal_strlit("resize");
    reveal_strlit("resize-height");
    reveal_strlit("aspect-ratio");
    reveal_strlit("square700");
    reveal_strlit("square300");
    assert("resize"@.len() == 6);
    assert("resize-height"@.len() == 13);
    assert("aspect-ratio"@.len() == 12);
    assert("square700"@.len() == 9);
    assert("square300"@.len() == 9);
}

/// Overlay dispatch always produces exactly five arguments, regardless of the
/// field values.
pub proof fn lemma_overlay_args_fixed_len(base: Seq<char>, overlay: Seq<char>, option: Seq<char>)
    ensures
        overlay_args_spec(base, overlay, option).len() == 5,
{
}

/// Video dispatch always produces exactly five arguments, regardless of the
/// field values.
pub proof fn lemma_video_args_fixed_len(
    path: Seq<char>,
    aspect: Seq<char>,
    resolution: Seq<char>,
    compression: Seq<char>,
)
    ensures
        video_args_spec(path, aspect, resolution, compression).len() == 5,
{
}

} // verus!

