use converter_core::markdown::normalize_markdown;

#[test]
fn round_trip_header_bold_link() {
    let out = normalize_markdown("# Title\n\nSome **bold** and [a link](http://x) text.\n");
    assert_eq!(out, "Title\n\nSome bold and a link text.");
}

#[test]
fn plain_text_is_only_trimmed() {
    let out = normalize_markdown("Hello world.\nSecond line.\n");
    assert_eq!(out, "Hello world.\nSecond line.");
    let again = normalize_markdown(&out);
    assert_eq!(again, "Hello world.\nSecond line.");
}

#[test]
fn fenced_block_removed_whole() {
    let out = normalize_markdown("a\n```\n**not bold**\n```\nb\n");
    assert_eq!(out, "a\n\nb");
}

#[test]
fn fence_without_close_stays() {
    let out = normalize_markdown("a\n```\nstill here\n");
    assert_eq!(out, "a\n```\nstill here");
}

#[test]
fn list_markers_stripped() {
    // The asterisk of the middle item is eaten by the earlier emphasis rule,
    // so the list rule no longer sees a marker there and its leading space
    // stays.
    let out = normalize_markdown("- item one\n* item two\n1. item three\n");
    assert_eq!(out, "item one\n item two\nitem three");
}

#[test]
fn dash_and_plus_list_markers_stripped() {
    let out = normalize_markdown("- item one\n+ item two\n1. item three\n");
    assert_eq!(out, "item one\nitem two\nitem three");
}

#[test]
fn ordered_markers_with_more_digits() {
    let out = normalize_markdown("12. twelve\n  3.  spaced\n");
    assert_eq!(out, "twelve\n spaced");
}

#[test]
fn horizontal_rule_line_deleted() {
    let out = normalize_markdown("a\n---\nb\n");
    assert_eq!(out, "a\nb");
}

#[test]
fn horizontal_rule_collapses_with_blanks() {
    let out = normalize_markdown("a\n\n---\n\nb");
    assert_eq!(out, "a\n\nb");
}

#[test]
fn lone_horizontal_rule_gives_empty() {
    let out = normalize_markdown("---\n");
    assert_eq!(out, "");
}

#[test]
fn headers_up_to_six_hashes() {
    let out = normalize_markdown("### Deep header\n####### seven\n#Title\n");
    assert_eq!(out, "Deep header\n####### seven\n#Title");
}

#[test]
fn inline_code_span_removed() {
    let out = normalize_markdown("use `cargo build` here\n");
    assert_eq!(out, "use  here");
}

#[test]
fn unclosed_backtick_stays() {
    let out = normalize_markdown("a `b c\n");
    assert_eq!(out, "a `b c");
}

#[test]
fn image_with_alt_keeps_bang_and_alt() {
    // The link rule runs first and unwraps the bracketed part of the image.
    let out = normalize_markdown("![alt](img.png)\n");
    assert_eq!(out, "!alt");
}

#[test]
fn image_with_empty_alt_removed() {
    let out = normalize_markdown("![](img.png)\n");
    assert_eq!(out, "");
}

#[test]
fn emphasis_markers_removed_word_underscores_kept() {
    let out = normalize_markdown("**bold** *it* snake_case a _ b __x__\n");
    assert_eq!(out, "bold it snake_case a  b x");
}

#[test]
fn blockquote_marker_stripped() {
    let out = normalize_markdown("> quoted\n>> nested\n");
    assert_eq!(out, "quoted\n>> nested");
}

#[test]
fn blank_runs_collapse_to_one_blank_line() {
    let out = normalize_markdown("a\n\n\n\nb");
    assert_eq!(out, "a\n\nb");
}

#[test]
fn empty_input_gives_empty_output() {
    assert_eq!(normalize_markdown(""), "");
}

#[test]
fn whitespace_only_input_trims_to_empty() {
    assert_eq!(normalize_markdown("  \n \n"), "");
}

#[test]
fn header_with_empty_text_gives_empty_line() {
    assert_eq!(normalize_markdown("# \nbody\n"), "body");
}

#[test]
fn link_without_target_stays() {
    let out = normalize_markdown("[label] alone and [label]() empty\n");
    assert_eq!(out, "[label] alone and [label]() empty");
}
