use rich_logger::dispatch::{Mailbox, Received, WorkerState};
use rich_logger::record::{log_impl_with, ContentType, RichLoggerRecord};
use rich_logger::{Cell, RichLogger, Severity};

fn lines_of(cells: &[Cell]) -> Vec<String> {
    let mut lines = Vec::new();
    let mut line = String::new();
    for cell in cells {
        match cell {
            Cell::Glyph { ch, .. } => line.push(*ch),
            Cell::LineBreak => {
                lines.push(line);
                line = String::new();
            }
        }
    }
    if !line.is_empty() {
        lines.push(line);
    }
    lines
}

fn record(text: &str) -> RichLoggerRecord {
    RichLoggerRecord::text(text, String::new(), Severity::Info)
}

fn text_of(record: &RichLoggerRecord) -> String {
    match &record.content {
        ContentType::TextContent(text) => text.clone(),
        ContentType::JsonContent(_) => String::new(),
    }
}

#[test]
fn a_new_mailbox_is_open_and_empty() {
    let mut mailbox = Mailbox::new();
    assert_eq!(mailbox.len(), 0);
    assert_eq!(mailbox.state(), WorkerState::Running);
    assert!(matches!(mailbox.receive(), Received::Idle));
    assert_eq!(mailbox.state(), WorkerState::Running);
}

#[test]
fn records_are_received_in_the_order_in_which_they_were_sent() {
    let mut mailbox = Mailbox::new();
    for i in 0..1000 {
        assert!(mailbox.send(record(&format!("record {}", i))));
    }
    assert_eq!(mailbox.len(), 1000);
    for i in 0..1000 {
        match mailbox.receive() {
            Received::Record(found) => assert_eq!(text_of(&found), format!("record {}", i)),
            _ => panic!("a record waits"),
        }
    }
    assert!(matches!(mailbox.receive(), Received::Idle));
}

#[test]
fn sending_and_receiving_in_turns_keeps_the_order() {
    let mut mailbox = Mailbox::new();
    let mut sent = 0;
    let mut received = 0;
    for round in 0..1000 {
        for _ in 0..(round % 3 + 1) {
            assert!(mailbox.send(record(&sent.to_string())));
            sent += 1;
        }
        for _ in 0..(round % 2 + 1) {
            if let Received::Record(found) = mailbox.receive() {
                assert_eq!(text_of(&found), received.to_string());
                received += 1;
            }
        }
    }
    while let Received::Record(found) = mailbox.receive() {
        assert_eq!(text_of(&found), received.to_string());
        received += 1;
    }
    assert_eq!(received, sent);
}

#[test]
fn a_closed_mailbox_hands_out_what_it_holds_and_then_ends() {
    let mut mailbox = Mailbox::new();
    assert!(mailbox.send(record("a")));
    assert!(mailbox.send(record("b")));
    mailbox.close();
    assert_eq!(mailbox.state(), WorkerState::Draining);
    assert!(!mailbox.send(record("late")));
    assert_eq!(mailbox.len(), 2);
    assert!(matches!(mailbox.receive(), Received::Record(found) if text_of(&found) == "a"));
    assert_eq!(mailbox.state(), WorkerState::Draining);
    assert!(matches!(mailbox.receive(), Received::Record(found) if text_of(&found) == "b"));
    assert_eq!(mailbox.state(), WorkerState::Terminated);
    assert!(matches!(mailbox.receive(), Received::Closed));
    assert!(matches!(mailbox.receive(), Received::Closed));
    assert_eq!(mailbox.state(), WorkerState::Terminated);
}

#[test]
fn closing_an_empty_mailbox_ends_the_renderer_at_once() {
    let mut mailbox = Mailbox::new();
    mailbox.close();
    assert_eq!(mailbox.state(), WorkerState::Terminated);
    assert!(matches!(mailbox.receive(), Received::Closed));
}

#[test]
fn draining_renders_every_record_in_order() {
    let mut mailbox = Mailbox::new();
    for i in 0..1000 {
        assert!(mailbox.send(record(&format!("record {}", i))));
    }
    let mut logger = RichLogger::new();
    mailbox.drain(&mut logger, 80, 1_700_000_000);
    assert_eq!(mailbox.len(), 0);
    assert_eq!(mailbox.state(), WorkerState::Running);
    let lines = lines_of(logger.pending());
    assert_eq!(lines.len(), 1000);
    for (i, line) in lines.iter().enumerate() {
        assert_eq!(line[11..].trim_end(), format!("INFO  record {}", i));
        if i > 0 {
            assert_eq!(&line[..11], " ".repeat(11));
        }
    }
    assert_eq!(logger.cursor(), 0);
}

#[test]
fn draining_is_rendering_one_record_after_the_other() {
    let mut mailbox = Mailbox::new();
    mailbox.send(record("first"));
    mailbox.send(RichLoggerRecord::from_message("[1]", "o:2".to_string(), Severity::Error));
    let mut drained = RichLogger::new();
    drained.update_time(12);
    mailbox.drain(&mut drained, 50, 12);
    let mut direct = RichLogger::new();
    direct.update_time(12);
    log_impl_with(&mut direct, &record("first"), 50, 12, None);
    log_impl_with(
        &mut direct,
        &RichLoggerRecord::from_message("[1]", "o:2".to_string(), Severity::Error),
        50,
        12,
        None,
    );
    assert_eq!(drained.pending(), direct.pending());
}

#[test]
fn draining_an_empty_mailbox_prints_nothing() {
    let mut mailbox = Mailbox::new();
    let mut logger = RichLogger::new();
    mailbox.drain(&mut logger, 80, 5);
    assert!(logger.pending().is_empty());
    assert_eq!(logger.last_second(), 0);
}
