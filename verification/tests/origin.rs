use rich_logger::origin::{file_name, origin_label_of, push_decimal};

#[test]
fn the_origin_is_the_file_name_and_the_line() {
    assert_eq!(file_name(Some("src/a.rs"), Some(5)), "a.rs:5");
    assert_eq!(file_name(Some("a.rs"), Some(5)), "a.rs:5");
    assert_eq!(file_name(Some("/deep/er/path/main.rs"), Some(1234)), "main.rs:1234");
}

#[test]
fn the_origin_is_empty_where_the_file_or_the_line_is_missing() {
    assert_eq!(file_name(None, Some(5)), "");
    assert_eq!(file_name(Some("src/a.rs"), None), "");
    assert_eq!(file_name(None, None), "");
}

#[test]
fn the_origin_is_empty_where_the_path_names_no_file() {
    assert_eq!(file_name(Some("src/.."), Some(5)), "");
    assert_eq!(file_name(Some(""), Some(5)), "");
}

#[test]
fn a_label_is_built_from_a_name_and_a_line() {
    assert_eq!(origin_label_of(Some("lib.rs"), Some(0)), "lib.rs:0");
    assert_eq!(origin_label_of(Some("lib.rs"), Some(u32::MAX)), "lib.rs:4294967295");
    assert_eq!(origin_label_of(Some(""), Some(7)), ":7");
    assert_eq!(origin_label_of(None, Some(7)), "");
    assert_eq!(origin_label_of(Some("lib.rs"), None), "");
}

#[test]
fn numbers_are_written_in_decimal() {
    for (n, text) in [(0u32, "0"), (9, "9"), (10, "10"), (105, "105"), (90_000, "90000")] {
        let mut out = String::from("n=");
        push_decimal(&mut out, n);
        assert_eq!(out, format!("n={}", text));
    }
}

#[test]
fn a_path_that_is_a_single_name_is_its_own_file_name() {
    assert_eq!(file_name(Some("a.rs"), Some(5)), "a.rs:5");
    assert_eq!(file_name(Some("no_extension"), Some(0)), "no_extension:0");
    assert_eq!(file_name(Some("..."), Some(1)), "...:1");
    assert_eq!(file_name(Some(".hidden"), Some(1)), ".hidden:1");
}

#[test]
fn the_single_dot_and_the_double_dot_name_no_file() {
    assert_eq!(file_name(Some(".."), Some(5)), "");
    assert_eq!(file_name(Some("."), Some(5)), "");
    assert_eq!(file_name(Some("/"), Some(5)), "");
}
