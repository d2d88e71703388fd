use rich_logger::clock::{FIRST_SECOND, LAST_SECOND};
use rich_logger::layout::{
    content_limit_of, effective_width, origin_column_of, usable_width_of, TabStop,
    CONTENT_COLUMN, DEFAULT_WIDTH, LEVEL_COLUMN, TIME_COLUMN,
};
use rich_logger::screen::{chars_of, is_line_break};
use rich_logger::{Cell, Color, Colors, RichLogger, Severity};

#[test]
fn a_new_logger_has_printed_nothing() {
    let logger = RichLogger::new();
    assert_eq!(logger.cursor(), 0);
    assert_eq!(logger.last_second(), 0);
    assert!(logger.pending().is_empty());
}

#[test]
fn the_cursor_counts_characters_not_bytes() {
    let mut logger = RichLogger::new();
    logger.write_string("héllo", None);
    assert_eq!(logger.cursor(), 5);
    logger.write_string("日本語", Some(Colors::foreground(Color::Green)));
    assert_eq!(logger.cursor(), 8);
    logger.write_string("", None);
    assert_eq!(logger.cursor(), 8);
    assert_eq!(logger.pending().len(), 8);
    assert_eq!(
        logger.pending()[5],
        Cell::Glyph { ch: '日', colors: Some(Colors { foreground: Some(Color::Green), background: None }) }
    );
}

#[test]
fn a_newline_resets_the_cursor() {
    let mut logger = RichLogger::new();
    logger.write_string("abc", None);
    logger.add_newline();
    assert_eq!(logger.cursor(), 0);
    assert_eq!(logger.pending()[3], Cell::LineBreak);
    logger.write_string("de", None);
    assert_eq!(logger.cursor(), 2);
}

#[test]
fn padding_fills_up_to_the_column_and_never_goes_back() {
    let mut logger = RichLogger::new();
    logger.write_string("ab", None);
    logger.pad_to_column(5);
    assert_eq!(logger.cursor(), 5);
    assert_eq!(logger.pending().len(), 5);
    assert_eq!(logger.pending()[4], Cell::Glyph { ch: ' ', colors: None });
    logger.pad_to_column(3);
    assert_eq!(logger.cursor(), 5);
    assert_eq!(logger.pending().len(), 5);
    logger.pad_to_column(5);
    assert_eq!(logger.pending().len(), 5);
}

#[test]
fn a_part_of_a_text_can_be_written() {
    let mut logger = RichLogger::new();
    let text: Vec<char> = "abcdef".chars().collect();
    logger.write_chars(&text, 2, 5, None);
    assert_eq!(logger.cursor(), 3);
    let shown: String = logger
        .pending()
        .iter()
        .map(|cell| match cell {
            Cell::Glyph { ch, .. } => *ch,
            Cell::LineBreak => '\n',
        })
        .collect();
    assert_eq!(shown, "cde");
}

#[test]
fn taking_the_output_keeps_the_line_that_is_not_finished() {
    let mut logger = RichLogger::new();
    logger.write_string("ab", None);
    logger.add_newline();
    logger.write_string("cd", None);
    logger.add_newline();
    logger.write_string("e", None);
    let lines = logger.take_output();
    assert_eq!(lines.len(), 6);
    assert!(is_line_break(&lines[5]));
    assert_eq!(logger.pending().len(), 1);
    assert_eq!(logger.pending()[0], Cell::Glyph { ch: 'e', colors: None });
    assert_eq!(logger.cursor(), 1);
    let again = logger.take_output();
    assert!(again.is_empty());
    assert_eq!(logger.cursor(), 1);
}

#[test]
fn taking_the_output_of_whole_lines_leaves_nothing() {
    let mut logger = RichLogger::new();
    logger.write_string("ab", None);
    logger.add_newline();
    let lines = logger.take_output();
    assert_eq!(lines.len(), 3);
    assert!(logger.pending().is_empty());
    assert_eq!(logger.cursor(), 0);
}

#[test]
fn the_characters_of_a_string_are_its_chars() {
    assert_eq!(chars_of("aé日"), vec!['a', 'é', '日']);
    assert!(chars_of("").is_empty());
}

#[test]
fn the_tab_stops_are_fixed() {
    assert_eq!(TIME_COLUMN, 0);
    assert_eq!(LEVEL_COLUMN, 11);
    assert_eq!(CONTENT_COLUMN, 17);
    let logger = RichLogger::new();
    assert_eq!(logger.tab_stop(TabStop::Time), 0);
    assert_eq!(logger.tab_stop(TabStop::Level), 11);
    assert_eq!(logger.tab_stop(TabStop::Content), 17);
    assert_eq!(TabStop::Content.column(), 17);
}

#[test]
fn the_usable_width_leaves_room_for_the_origin_and_is_never_zero() {
    assert_eq!(usable_width_of(80, 6), 56);
    assert_eq!(usable_width_of(80, 0), 62);
    assert_eq!(usable_width_of(19, 0), 1);
    assert_eq!(usable_width_of(18, 0), 1);
    assert_eq!(usable_width_of(20, 6), 1);
    assert_eq!(usable_width_of(0, 0), 1);
    assert_eq!(usable_width_of(usize::MAX, usize::MAX), 1);
    assert_eq!(origin_column_of(80, 6), 74);
    assert_eq!(origin_column_of(5, 6), 0);
    assert_eq!(content_limit_of(80, 6), 73);
    assert_eq!(content_limit_of(0, 0), 18);
}

#[test]
fn a_terminal_that_reports_no_width_is_taken_as_eighty_wide() {
    assert_eq!(DEFAULT_WIDTH, 80);
    assert_eq!(effective_width(None), 80);
    assert_eq!(effective_width(Some(132)), 132);
    assert_eq!(effective_width(Some(0)), 0);
}

#[test]
fn the_severity_column_is_padded_to_the_content_column() {
    for (level, name) in [
        (Severity::Trace, "TRACE"),
        (Severity::Debug, "DEBUG"),
        (Severity::Info, "INFO"),
        (Severity::Warn, "WARN"),
        (Severity::Error, "ERROR"),
    ] {
        let mut logger = RichLogger::new();
        logger.pad_to_column(LEVEL_COLUMN);
        logger.write_level(level);
        assert_eq!(logger.cursor(), 17);
        assert_eq!(level.name(), name);
        let shown: String = logger.pending()[11..]
            .iter()
            .map(|cell| match cell {
                Cell::Glyph { ch, .. } => *ch,
                Cell::LineBreak => '\n',
            })
            .collect();
        assert_eq!(shown.trim_end(), name);
        assert_eq!(logger.pending()[11], Cell::Glyph { ch: name.chars().next().unwrap(), colors: Some(level.colors()) });
    }
}

#[test]
fn the_severities_are_ordered_from_trace_to_error() {
    assert_eq!(Severity::Trace.rank(), 0);
    assert_eq!(Severity::Debug.rank(), 1);
    assert_eq!(Severity::Info.rank(), 2);
    assert_eq!(Severity::Warn.rank(), 3);
    assert_eq!(Severity::Error.rank(), 4);
    assert!(Severity::Error.passes(Severity::Info));
    assert!(Severity::Info.passes(Severity::Info));
    assert!(!Severity::Debug.passes(Severity::Info));
    assert!(Severity::Trace.passes(Severity::Trace));
}

#[test]
fn each_severity_has_its_colours() {
    assert_eq!(Severity::Warn.colors(), Colors { foreground: Some(Color::Yellow), background: None });
    assert_eq!(Severity::Info.colors(), Colors { foreground: Some(Color::White), background: None });
    assert_eq!(
        Severity::Error.colors(),
        Colors { foreground: Some(Color::Black), background: Some(Color::Red) }
    );
    assert_eq!(Severity::Debug.colors(), Colors { foreground: Some(Color::Cyan), background: None });
    assert_eq!(Severity::Trace.colors(), Colors { foreground: Some(Color::Green), background: None });
}

#[test]
fn the_time_column_has_the_same_width_with_and_without_a_timestamp() {
    let mut first = RichLogger::new();
    first.write_time_with(42, Some("[00:00:42] "));
    assert_eq!(first.cursor(), 11);
    assert_eq!(first.last_second(), 42);
    let printed = first.pending().len();
    first.add_newline();
    first.write_time_with(42, Some("[00:00:42] "));
    assert_eq!(first.cursor(), 11);
    assert_eq!(first.pending().len(), 2 * printed + 1);
    assert_eq!(first.pending()[printed + 1], Cell::Glyph { ch: ' ', colors: None });
    first.add_newline();
    first.write_time_with(43, Some("[00:00:43] "));
    assert_eq!(first.cursor(), 11);
    assert_eq!(
        first.pending()[2 * printed + 2],
        Cell::Glyph { ch: '[', colors: Some(Colors { foreground: Some(Color::Grey), background: None }) }
    );
    assert_eq!(first.last_second(), 43);
}

#[test]
fn the_time_column_of_the_real_clock_is_eleven_wide() {
    let mut logger = RichLogger::new();
    logger.write_time(86_400 * 365);
    assert_eq!(logger.cursor(), 11);
    assert_eq!(logger.last_second(), 86_400 * 365);
    assert_eq!(logger.pending()[0], Cell::Glyph { ch: '[', colors: Some(Colors { foreground: Some(Color::Grey), background: None }) });
    logger.add_newline();
    logger.write_time(86_400 * 365);
    assert_eq!(logger.cursor(), 11);
    assert_eq!(logger.pending()[12], Cell::Glyph { ch: ' ', colors: None });
}

#[test]
fn a_second_that_the_clock_cannot_show_leaves_blanks() {
    for second in [i64::MAX, i64::MIN, LAST_SECOND + 1, FIRST_SECOND - 1] {
        let mut logger = RichLogger::new();
        logger.write_time(second);
        assert_eq!(logger.cursor(), 11);
        assert_eq!(logger.last_second(), second);
        assert_eq!(logger.pending()[0], Cell::Glyph { ch: ' ', colors: None });
    }
}

#[test]
fn the_clock_shows_every_second_of_its_calendar() {
    assert_eq!(FIRST_SECOND, -8_334_601_228_800);
    assert_eq!(LAST_SECOND, 8_210_266_876_799);
    for second in [FIRST_SECOND, FIRST_SECOND + 1, -1, 1, 1_700_000_000, LAST_SECOND - 1, LAST_SECOND] {
        let mut logger = RichLogger::new();
        logger.write_time(second);
        assert_eq!(logger.cursor(), 11);
        let shown: Vec<char> = logger
            .pending()
            .iter()
            .map(|cell| match cell {
                Cell::Glyph { ch, .. } => *ch,
                Cell::LineBreak => '\n',
            })
            .collect();
        assert_eq!(shown[0], '[');
        assert_eq!(shown[3], ':');
        assert_eq!(shown[6], ':');
        assert_eq!(shown[9], ']');
        assert_eq!(shown[10], ' ');
        for i in [1, 2, 4, 5, 7, 8] {
            assert!(shown[i].is_ascii_digit());
        }
    }
}
