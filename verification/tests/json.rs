use rich_logger::escape::{push_escaped, string_literal_of};
use rich_logger::json::{
    tokenize_json_value, JsonToken, JsonValue, Literal, Member, Operator, TokenKind,
};
use rich_logger::json_print::{print_json_color, safe_wrap_print_json};
use rich_logger::parse::parse_json;
use rich_logger::record::{log_impl_with, ContentType, RichLoggerRecord};
use rich_logger::{Cell, Color, Colors, RichLogger, Severity};

fn lines_of(cells: &[Cell]) -> Vec<String> {
    let mut lines = Vec::new();
    let mut line = String::new();
    for cell in cells {
        match cell {
            Cell::Glyph { ch, .. } => line.push(*ch),
            Cell::LineBreak => {
                lines.push(line);
                line = String::new();
            }
        }
    }
    if !line.is_empty() {
        lines.push(line);
    }
    lines
}

fn contents(tokens: &[JsonToken]) -> Vec<String> {
    tokens.iter().map(|token| token.content.clone()).collect()
}

fn joined(tokens: &[JsonToken]) -> String {
    contents(tokens).concat()
}

fn sample() -> JsonValue {
    JsonValue::Object(vec![
        Member { key: "b".to_string(), value: JsonValue::Number("1".to_string()) },
        Member {
            key: "a".to_string(),
            value: JsonValue::Array(vec![
                JsonValue::Bool(true),
                JsonValue::Null,
                JsonValue::String("x".to_string()),
                JsonValue::Number("1.5".to_string()),
                JsonValue::Bool(false),
            ]),
        },
        Member { key: "e".to_string(), value: JsonValue::Object(vec![]) },
        Member { key: "f".to_string(), value: JsonValue::Array(vec![]) },
    ])
}

#[test]
fn the_tokens_of_a_value_come_in_document_order() {
    let tokens = tokenize_json_value(&sample());
    assert_eq!(
        contents(&tokens),
        vec![
            "{", "\"b\"", ":", "1", ",", "\"a\"", ":", "[", "true", ",", "null", ",", "\"x\"",
            ",", "1.5", ",", "false", "]", ",", "\"e\"", ":", "{", "}", ",", "\"f\"", ":", "[",
            "]", "}",
        ]
    );
}

#[test]
fn the_texts_of_the_tokens_spell_the_document() {
    let tokens = tokenize_json_value(&sample());
    assert_eq!(joined(&tokens), "{\"b\":1,\"a\":[true,null,\"x\",1.5,false],\"e\":{},\"f\":[]}");
}

#[test]
fn the_members_of_an_object_keep_their_order() {
    let value = JsonValue::Object(vec![
        Member { key: "z".to_string(), value: JsonValue::Null },
        Member { key: "a".to_string(), value: JsonValue::Null },
        Member { key: "m".to_string(), value: JsonValue::Null },
    ]);
    assert_eq!(joined(&tokenize_json_value(&value)), "{\"z\":null,\"a\":null,\"m\":null}");
}

#[test]
fn each_token_says_what_it_is() {
    let tokens = tokenize_json_value(&sample());
    assert!(matches!(tokens[0].kind, TokenKind::Operator(Operator::JsonLBrace)));
    assert!(matches!(&tokens[1].kind, TokenKind::Literal(Literal::StringLiteral(s)) if s == "b"));
    assert!(matches!(tokens[2].kind, TokenKind::Operator(Operator::JsonColon)));
    assert!(matches!(&tokens[3].kind, TokenKind::Literal(Literal::NumberLiteral(n)) if n == "1"));
    assert!(matches!(tokens[4].kind, TokenKind::Operator(Operator::JsonComma)));
    assert!(matches!(tokens[7].kind, TokenKind::Operator(Operator::JsonLBracket)));
    assert!(matches!(tokens[8].kind, TokenKind::Literal(Literal::BooleanLiteral(true))));
    assert!(matches!(tokens[10].kind, TokenKind::Literal(Literal::NullLiteral)));
    assert!(matches!(tokens[16].kind, TokenKind::Literal(Literal::BooleanLiteral(false))));
    assert!(matches!(tokens[17].kind, TokenKind::Operator(Operator::JsonRBracket)));
    assert!(matches!(tokens[28].kind, TokenKind::Operator(Operator::JsonRBrace)));
}

#[test]
fn a_scalar_is_one_token() {
    assert_eq!(contents(&tokenize_json_value(&JsonValue::Null)), vec!["null"]);
    assert_eq!(contents(&tokenize_json_value(&JsonValue::Bool(false))), vec!["false"]);
    assert_eq!(contents(&tokenize_json_value(&JsonValue::Number("-3e7".to_string()))), vec!["-3e7"]);
    assert_eq!(contents(&tokenize_json_value(&JsonValue::String("".to_string()))), vec!["\"\""]);
}

#[test]
fn the_text_of_a_string_is_its_json_literal() {
    let tokens = tokenize_json_value(&JsonValue::String("a\"b".to_string()));
    assert_eq!(contents(&tokens), vec!["\"a\\\"b\""]);
    assert!(matches!(&tokens[0].kind, TokenKind::Literal(Literal::StringLiteral(s)) if s == "a\"b"));
    assert_eq!(JsonToken::string("back\\slash").content, "\"back\\\\slash\"");
    assert_eq!(JsonToken::string("a\nb\tc\rd").content, "\"a\\nb\\tc\\rd\"");
    assert_eq!(JsonToken::string("\u{8}\u{c}").content, "\"\\b\\f\"");
    assert_eq!(JsonToken::string("\u{0}\u{1f}\u{b}").content, "\"\\u0000\\u001f\\u000b\"");
    assert_eq!(JsonToken::string("\u{7f}é日/").content, "\"\u{7f}é日/\"");
}

#[test]
fn a_string_literal_is_what_serde_json_writes() {
    let mut all = String::new();
    for code in 0..0x180u32 {
        all.push(char::from_u32(code).unwrap());
    }
    for text in ["", "plain", "a\"b", "\\", "\\\"", "tab\there", all.as_str(), "日本語 \u{10ffff}"] {
        assert_eq!(JsonToken::string(text).content, serde_json::to_string(text).unwrap());
        assert_eq!(string_literal_of(text), serde_json::to_string(text).unwrap());
    }
    for code in 0..0x180u32 {
        let c = char::from_u32(code).unwrap();
        let mut out = String::from("x");
        push_escaped(&mut out, c);
        let expected = serde_json::to_string(&c.to_string()).unwrap();
        assert_eq!(out, format!("x{}", &expected[1..expected.len() - 1]));
    }
}

#[test]
fn the_token_builders_give_the_texts() {
    assert_eq!(JsonToken::operator(Operator::JsonLBrace).content, "{");
    assert_eq!(JsonToken::operator(Operator::JsonRBrace).content, "}");
    assert_eq!(JsonToken::operator(Operator::JsonLBracket).content, "[");
    assert_eq!(JsonToken::operator(Operator::JsonRBracket).content, "]");
    assert_eq!(JsonToken::operator(Operator::JsonColon).content, ":");
    assert_eq!(JsonToken::operator(Operator::JsonComma).content, ",");
    assert_eq!(JsonToken::string("k").content, "\"k\"");
    assert_eq!(JsonToken::number("12").content, "12");
    assert_eq!(JsonToken::boolean(true).content, "true");
    assert_eq!(JsonToken::boolean(false).content, "false");
    assert_eq!(JsonToken::null().content, "null");
}

#[test]
fn each_kind_of_literal_has_its_colour() {
    let only = |color| Some(Colors { foreground: Some(color), background: None });
    assert_eq!(JsonToken::string("k").colors(), only(Color::Green));
    assert_eq!(JsonToken::number("12").colors(), only(Color::DarkBlue));
    assert_eq!(JsonToken::boolean(true).colors(), only(Color::Red));
    assert_eq!(JsonToken::null().colors(), only(Color::Yellow));
    assert_eq!(JsonToken::operator(Operator::JsonComma).colors(), None);
}

#[test]
fn a_document_is_parsed_and_tokenized() {
    let value = parse_json("{\"b\": 1, \"a\": [true, null, \"x\", 1.5, -2, 1e3]}").unwrap();
    let tokens = tokenize_json_value(&value);
    // serde_json keeps the members of an object sorted by key.
    assert_eq!(joined(&tokens), "{\"a\":[true,null,\"x\",1.5,-2,1000.0],\"b\":1}");
}

#[test]
fn parsing_tells_the_variants_apart() {
    assert!(matches!(parse_json("null"), Some(JsonValue::Null)));
    assert!(matches!(parse_json("true"), Some(JsonValue::Bool(true))));
    assert!(matches!(parse_json("17"), Some(JsonValue::Number(n)) if n == "17"));
    assert!(matches!(parse_json("\"s\""), Some(JsonValue::String(s)) if s == "s"));
    assert!(matches!(parse_json("[1, 2]"), Some(JsonValue::Array(items)) if items.len() == 2));
    assert!(matches!(parse_json("{\"k\": {}}"), Some(JsonValue::Object(m)) if m.len() == 1 && m[0].key == "k"));
}

#[test]
fn what_is_no_document_is_not_parsed() {
    assert!(parse_json("hello").is_none());
    assert!(parse_json("").is_none());
    assert!(parse_json("{\"a\": }").is_none());
    assert!(parse_json("[1, 2] trailing").is_none());
}

#[test]
fn a_message_that_is_a_document_becomes_a_json_record() {
    let record = RichLoggerRecord::from_message("[1, \"two\"]", "a.rs:5".to_string(), Severity::Warn);
    assert_eq!(record.file_name, "a.rs:5");
    assert_eq!(record.level, Severity::Warn);
    match &record.content {
        ContentType::JsonContent(tokens) => assert_eq!(joined(tokens), "[1,\"two\"]"),
        ContentType::TextContent(_) => panic!("the message is a document"),
    }
}

#[test]
fn a_message_that_is_no_document_becomes_a_text_record() {
    let record = RichLoggerRecord::from_message("just {text", String::new(), Severity::Info);
    match &record.content {
        ContentType::TextContent(text) => assert_eq!(text, "just {text"),
        ContentType::JsonContent(_) => panic!("the message is no document"),
    }
}

#[test]
fn a_record_is_built_from_what_was_parsed() {
    let record = RichLoggerRecord::from_parsed(
        Some(JsonValue::Bool(true)),
        "true",
        String::new(),
        Severity::Debug,
    );
    assert!(matches!(&record.content, ContentType::JsonContent(tokens) if joined(tokens) == "true"));
    let record = RichLoggerRecord::from_parsed(None, "true", String::new(), Severity::Debug);
    assert!(matches!(&record.content, ContentType::TextContent(text) if text == "true"));
    let record = RichLoggerRecord::text("t", "o:1".to_string(), Severity::Error);
    assert!(matches!(&record.content, ContentType::TextContent(text) if text == "t"));
    assert_eq!(record.file_name, "o:1");
    let record = RichLoggerRecord::json(&JsonValue::Null, String::new(), Severity::Trace);
    assert!(matches!(&record.content, ContentType::JsonContent(tokens) if tokens.len() == 1));
}

#[test]
fn a_document_that_fits_has_its_origin_at_the_right_edge() {
    let mut logger = RichLogger::new();
    let record = RichLoggerRecord::from_message("{\"a\": 1}", "a.rs:5".to_string(), Severity::Info);
    log_impl_with(&mut logger, &record, 40, 3, Some("[00:00:03] "));
    let lines = lines_of(logger.pending());
    assert_eq!(lines, vec![format!("[00:00:03] INFO  {{\"a\":1}}{}a.rs:5", " ".repeat(10))]);
    assert_eq!(lines[0].chars().count(), 40);
    assert_eq!(logger.cursor(), 0);
}

#[test]
fn a_long_token_is_split_and_the_origin_goes_to_the_first_broken_line() {
    let mut logger = RichLogger::new();
    // 30 - 17 - 3 - 1 = 9 characters of content on a line, up to column 26.
    let record =
        RichLoggerRecord::from_message("[\"abcdefghijklmnop\"]", "x:1".to_string(), Severity::Warn);
    log_impl_with(&mut logger, &record, 30, 3, Some("[00:00:03] "));
    let lines = lines_of(logger.pending());
    assert_eq!(
        lines,
        vec![
            "[00:00:03] WARN  [\"abcdefg x:1".to_string(),
            format!("{}hijklmnop ", " ".repeat(17)),
            format!("{}\"]", " ".repeat(17)),
        ]
    );
    assert_eq!(lines.join("\n").matches("x:1").count(), 1);
    assert_eq!(lines[0].chars().count(), 30);
}

#[test]
fn the_tokens_keep_their_colours_across_a_break() {
    let mut logger = RichLogger::new();
    logger.pad_to_column(17);
    let green = Some(Colors { foreground: Some(Color::Green), background: None });
    // Width 22 without an origin leaves room for four characters.
    let printed = safe_wrap_print_json(&mut logger, "abcdef", green, 22, "", true);
    assert!(printed);
    let cells = logger.pending();
    assert_eq!(cells[17], Cell::Glyph { ch: 'a', colors: green });
    assert_eq!(cells[20], Cell::Glyph { ch: 'd', colors: green });
    assert_eq!(cells[21], Cell::LineBreak);
    assert_eq!(cells[22], Cell::Glyph { ch: ' ', colors: None });
    assert_eq!(cells[39], Cell::Glyph { ch: 'e', colors: green });
    assert_eq!(cells[40], Cell::Glyph { ch: 'f', colors: green });
    assert_eq!(cells.len(), 41);
    assert_eq!(logger.cursor(), 19);
}

#[test]
fn a_text_that_fits_is_printed_whole_and_no_origin_with_it() {
    let mut logger = RichLogger::new();
    logger.pad_to_column(17);
    let printed = safe_wrap_print_json(&mut logger, "abcd", None, 22, "", true);
    assert!(!printed);
    assert_eq!(logger.cursor(), 21);
    assert_eq!(logger.pending().len(), 21);
    let printed = safe_wrap_print_json(&mut logger, "", None, 22, "", true);
    assert!(!printed);
    assert_eq!(logger.pending().len(), 21);
}

#[test]
fn an_origin_that_is_not_owed_is_not_printed_at_a_break() {
    let mut logger = RichLogger::new();
    logger.pad_to_column(17);
    let printed = safe_wrap_print_json(&mut logger, "abcdef", None, 30, "o:1", false);
    assert!(!printed);
    let lines = lines_of(logger.pending());
    assert_eq!(lines.len(), 1);
    assert_eq!(lines[0], format!("{}abcdef", " ".repeat(17)));
    // Nine characters fit; ten do not.
    let mut logger = RichLogger::new();
    logger.pad_to_column(17);
    let printed = safe_wrap_print_json(&mut logger, "0123456789", None, 30, "o:1", false);
    assert!(!printed);
    let lines = lines_of(logger.pending());
    assert_eq!(lines, vec![format!("{}012345678 ", " ".repeat(17)), format!("{}9", " ".repeat(17))]);
}

#[test]
fn a_cursor_beyond_the_limit_breaks_the_line_first() {
    let mut logger = RichLogger::new();
    logger.pad_to_column(40);
    let printed = safe_wrap_print_json(&mut logger, "ab", None, 30, "o:1", true);
    assert!(printed);
    let lines = lines_of(logger.pending());
    assert_eq!(lines, vec![format!("{}o:1", " ".repeat(40)), format!("{}ab", " ".repeat(17))]);
}

#[test]
fn a_run_of_tokens_without_a_break_gets_its_origin_at_the_end() {
    let mut logger = RichLogger::new();
    logger.pad_to_column(17);
    let tokens = tokenize_json_value(&JsonValue::Array(vec![JsonValue::Null]));
    print_json_color(&mut logger, "o:1", &tokens, 40);
    let lines = lines_of(logger.pending());
    assert_eq!(lines, vec![format!("{}[null]{}o:1", " ".repeat(17), " ".repeat(14))]);
    assert_eq!(logger.cursor(), 40);
}

#[test]
fn no_tokens_print_only_the_origin() {
    let mut logger = RichLogger::new();
    print_json_color(&mut logger, "o:1", &Vec::new(), 10);
    let lines = lines_of(logger.pending());
    assert_eq!(lines, vec![format!("{}o:1", " ".repeat(7))]);
}

#[test]
fn the_document_that_the_tokens_spell_parses_back_to_the_same_tokens() {
    for text in [
        "{\"b\": 1, \"a\": [true, null, \"x\", 1.5, -2, 1e3], \"c\": {\"d\": []}}",
        "[]",
        "{}",
        "[[[1], 2], {\"k\": \"v w\"}]",
        "-0.25",
        "\"plain text\"",
        "null",
    ] {
        let first = tokenize_json_value(&parse_json(text).unwrap());
        let document = joined(&first);
        let second = tokenize_json_value(&parse_json(&document).unwrap());
        assert_eq!(contents(&second), contents(&first));
        assert_eq!(joined(&second), document);
    }
}

#[test]
fn strings_that_need_escaping_come_back_as_they_were() {
    let odd = JsonValue::Array(vec![
        JsonValue::String("a\",\"b".to_string()),
        JsonValue::String("line\nfeed \\ back\u{1}".to_string()),
        JsonValue::Object(vec![Member {
            key: "k\"e\\y".to_string(),
            value: JsonValue::String("]}".to_string()),
        }]),
    ]);
    let two = JsonValue::Array(vec![
        JsonValue::String("a".to_string()),
        JsonValue::String("b".to_string()),
    ]);
    let document = joined(&tokenize_json_value(&odd));
    assert_ne!(document, joined(&tokenize_json_value(&two)));
    let parsed = parse_json(&document).unwrap();
    let again = tokenize_json_value(&parsed);
    assert_eq!(contents(&again), contents(&tokenize_json_value(&odd)));
    match &parsed {
        JsonValue::Array(items) => {
            assert_eq!(items.len(), 3);
            assert!(matches!(&items[0], JsonValue::String(s) if s == "a\",\"b"));
            assert!(matches!(&items[1], JsonValue::String(s) if s == "line\nfeed \\ back\u{1}"));
            assert!(matches!(&items[2], JsonValue::Object(m) if m[0].key == "k\"e\\y"));
        }
        _ => panic!("the document is an array"),
    }
}

#[test]
fn the_document_agrees_with_what_serde_json_writes() {
    for text in [
        "{\"b\": 1, \"a\": [true, null, \"x\\\"y\", 1.5, -2, 1e3], \"c\": {\"d\\n\": []}}",
        "[\"\\u0000\\u001f \\\\ \\/ \\b\\f\\n\\r\\t\"]",
        "\"\"",
    ] {
        let value: serde_json::Value = serde_json::from_str(text).unwrap();
        let tokens = tokenize_json_value(&parse_json(text).unwrap());
        assert_eq!(joined(&tokens), serde_json::to_string(&value).unwrap());
        let back: serde_json::Value = serde_json::from_str(&joined(&tokens)).unwrap();
        assert_eq!(back, value);
    }
}
