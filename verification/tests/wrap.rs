use rich_logger::wrap::{copy_range, normalize, split_chunk, wrap_text, WrappedLine};

fn chars(text: &str) -> Vec<char> {
    text.chars().collect()
}

fn shown(lines: &[WrappedLine]) -> Vec<(String, bool)> {
    lines.iter().map(|line| (line.text.iter().collect::<String>(), line.hard_break)).collect()
}

fn rejoined(lines: &[WrappedLine]) -> String {
    let mut text = String::new();
    for line in lines {
        text.extend(line.text.iter());
        if line.hard_break {
            text.push('\n');
        }
    }
    text
}

#[test]
fn normalizing_expands_tabs_and_drops_carriage_returns() {
    assert_eq!(normalize("a\tb"), chars("a    b"));
    assert_eq!(normalize("a\r\nb\r"), chars("a\nb"));
    assert_eq!(normalize("\t\t"), chars("        "));
    assert_eq!(normalize(""), chars(""));
    assert_eq!(normalize("plain ü"), chars("plain ü"));
}

#[test]
fn a_text_is_cut_into_chunks_of_the_width() {
    let lines = wrap_text(&chars("abcdefgh"), 3);
    assert_eq!(
        shown(&lines),
        vec![("abc".to_string(), false), ("def".to_string(), false), ("gh".to_string(), false)]
    );
}

#[test]
fn a_text_of_exactly_the_width_is_one_line() {
    let lines = wrap_text(&chars("abc"), 3);
    assert_eq!(shown(&lines), vec![("abc".to_string(), false)]);
}

#[test]
fn an_empty_text_wraps_to_nothing() {
    assert!(wrap_text(&chars(""), 5).is_empty());
    assert!(wrap_text(&chars(""), 0).is_empty());
}

#[test]
fn a_width_of_zero_is_taken_as_one() {
    let lines = wrap_text(&chars("ab"), 0);
    assert_eq!(shown(&lines), vec![("a".to_string(), false), ("b".to_string(), false)]);
}

#[test]
fn line_feeds_break_lines_inside_a_chunk() {
    let lines = wrap_text(&chars("ab\ncd\n"), 10);
    assert_eq!(
        shown(&lines),
        vec![("ab".to_string(), true), ("cd".to_string(), true), ("".to_string(), false)]
    );
}

#[test]
fn chunks_are_counted_before_line_feeds_are_honoured() {
    // The chunks are "ab\nc" and "def": the line feed takes one place of the first.
    let lines = wrap_text(&chars("ab\ncdef"), 4);
    assert_eq!(
        shown(&lines),
        vec![("ab".to_string(), true), ("c".to_string(), false), ("def".to_string(), false)]
    );
}

#[test]
fn wrapping_loses_nothing() {
    for text in ["", "a", "hello world", "a\n\nb", "\n", "tab\there", "日本語のテキスト", "x\ny\nz\n"] {
        for width in 0..12usize {
            let lines = wrap_text(&chars(text), width);
            assert_eq!(rejoined(&lines), text);
            for line in &lines {
                assert!(line.text.len() <= width.max(1));
                assert!(!line.text.contains(&'\n'));
            }
        }
    }
}

#[test]
fn a_chunk_is_split_after_what_was_there() {
    let text = chars("xxa\nbyy");
    let mut lines = vec![WrappedLine { text: chars("old"), hard_break: false }];
    split_chunk(&text, 2, 5, &mut lines);
    assert_eq!(
        shown(&lines),
        vec![("old".to_string(), false), ("a".to_string(), true), ("b".to_string(), false)]
    );
}

#[test]
fn a_range_is_copied() {
    assert_eq!(copy_range(&chars("abcdef"), 1, 4), chars("bcd"));
    assert!(copy_range(&chars("abcdef"), 3, 3).is_empty());
}
