use converter_core::dispatch::convert_image_args;
use converter_core::dispatch::convert_video_args;
use converter_core::dispatch::overlay_image_args;

fn s(x: &str) -> String {
    x.to_string()
}

#[test]
fn resize_with_width_and_webp() {
    let args = convert_image_args(
        &s("img.png"),
        &s("resize"),
        &Some(s("800")),
        &None,
        &None,
        &Some(true),
    );
    assert_eq!(args, vec![s("--image"), s("img.png"), s("resize"), s("800"), s("--webp")]);
}

#[test]
fn resize_without_width() {
    let args = convert_image_args(&s("img.png"), &s("resize"), &None, &None, &None, &None);
    assert_eq!(args, vec![s("--image"), s("img.png"), s("resize")]);
}

#[test]
fn resize_webp_false_is_omitted() {
    let args =
        convert_image_args(&s("img.png"), &s("resize"), &Some(s("320")), &None, &None, &Some(false));
    assert_eq!(args, vec![s("--image"), s("img.png"), s("resize"), s("320")]);
}

#[test]
fn resize_ignores_height_and_ratio() {
    let args = convert_image_args(
        &s("img.png"),
        &s("resize"),
        &Some(s("800")),
        &Some(s("600")),
        &Some(s("4:3")),
        &None,
    );
    assert_eq!(args, vec![s("--image"), s("img.png"), s("resize"), s("800")]);
}

#[test]
fn resize_height_with_height() {
    let args = convert_image_args(
        &s("p.jpg"),
        &s("resize-height"),
        &None,
        &Some(s("600")),
        &None,
        &None,
    );
    assert_eq!(args, vec![s("--image"), s("p.jpg"), s("resize-height"), s("600")]);
}

#[test]
fn resize_height_without_height_omits_it() {
    let args = convert_image_args(
        &s("p.jpg"),
        &s("resize-height"),
        &Some(s("800")),
        &None,
        &None,
        &Some(true),
    );
    assert_eq!(args, vec![s("--image"), s("p.jpg"), s("resize-height"), s("--webp")]);
}

#[test]
fn aspect_ratio_with_ratio_and_webp() {
    let args = convert_image_args(
        &s("p.jpg"),
        &s("aspect-ratio"),
        &None,
        &None,
        &Some(s("16:9")),
        &Some(true),
    );
    assert_eq!(args, vec![s("--image"), s("p.jpg"), s("aspect-ratio"), s("16:9"), s("--webp")]);
}

#[test]
fn square_ops_take_only_webp() {
    let args = convert_image_args(
        &s("p.jpg"),
        &s("square700"),
        &Some(s("800")),
        &Some(s("600")),
        &Some(s("4:3")),
        &Some(true),
    );
    assert_eq!(args, vec![s("--image"), s("p.jpg"), s("square700"), s("--webp")]);
    let args = convert_image_args(&s("p.jpg"), &s("square300"), &None, &None, &None, &None);
    assert_eq!(args, vec![s("--image"), s("p.jpg"), s("square300")]);
}

#[test]
fn unknown_op_appends_width_then_ratio() {
    let args = convert_image_args(
        &s("p.jpg"),
        &s("rotate"),
        &Some(s("800")),
        &Some(s("600")),
        &Some(s("4:3")),
        &Some(true),
    );
    assert_eq!(args, vec![s("--image"), s("p.jpg"), s("rotate"), s("800"), s("4:3")]);
}

#[test]
fn overlay_is_always_five_tokens() {
    let args = overlay_image_args(&s("base.png"), &s("over.png"), &s("top-left"));
    assert_eq!(args, vec![s("--image"), s("base.png"), s("overlay"), s("over.png"), s("top-left")]);
    assert_eq!(args.len(), 5);
}

#[test]
fn video_is_always_five_tokens() {
    let args = convert_video_args(&s("v.mp4"), &s("16:9"), &s("1080p"), &s("high"));
    assert_eq!(args, vec![s("--video"), s("v.mp4"), s("16:9"), s("1080p"), s("high")]);
    assert_eq!(args.len(), 5);
}
