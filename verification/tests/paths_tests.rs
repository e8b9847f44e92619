use converter_core::paths::join_file_names;
use converter_core::paths::txt_path_for;

#[test]
fn md_suffix_replaced() {
    assert_eq!(txt_path_for("notes.md"), "notes.txt");
}

#[test]
fn markdown_suffix_replaced() {
    assert_eq!(txt_path_for("notes.markdown"), "notes.txt");
}

#[test]
fn other_suffix_gets_txt_appended() {
    assert_eq!(txt_path_for("notes"), "notes.txt");
    assert_eq!(txt_path_for("notes.rst"), "notes.rst.txt");
}

#[test]
fn only_trailing_suffix_counts() {
    assert_eq!(txt_path_for("a.md.md"), "a.md.txt");
}

#[test]
fn names_joined_one_per_line() {
    let names = vec!["a.png".to_string(), "b.txt".to_string()];
    assert_eq!(join_file_names(&names), "a.png\nb.txt\n");
}

#[test]
fn no_names_give_empty_listing() {
    let names: Vec<String> = Vec::new();
    assert_eq!(join_file_names(&names), "");
}
