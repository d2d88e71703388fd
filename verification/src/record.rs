//! Log records and the pipeline that renders one: time, severity, content.
use vstd::prelude::*;
use vstd::string::{StrSliceExecFns, StringExecFns};
use crate::parse::{json_parsed, parse_json};
use crate::clock::{is_clock_reading, is_clock_text};
use crate::json::{
    token_views, tokenize_json_value, tree_tokens, JsonToken, JsonTree, JsonValue, TokenView,
};
use crate::json_print::{
    has_room, json_printed, lemma_json_printed_fits, lemma_json_printed_grows, print_json_color,
};
use crate::layout::{
    lemma_origin_placed_fits, lemma_origin_placed_grows, lemma_time_and_level_fit, level_written,
    muted, origin_placed, time_written, usable_width,
    usable_width_of, TabStop, CONTENT_COLUMN, LEVEL_COLUMN, TIME_COLUMN,
};
use crate::screen::{
    lemma_newline_fits, lemma_pad_fits, lemma_steps_grow, lemma_write_fits, RenderState,
    RichLogger,
};
use crate::style::{Color, Colors, Severity};
use crate::wrap::{
    lemma_split_lines, lemma_wrap_lossless, line_views, normalize, normalized, wrap_text,
    wrapped, LineView,
};

verus! {

/// What a record says: plain text, or the tokens of a JSON document.
#[derive(Debug)]
pub enum ContentType {
    TextContent(String),
    JsonContent(Vec<JsonToken>),
}

/// One log record. It holds no time: the timestamp is that of the moment at
/// which the record is rendered.
#[derive(Debug)]
pub struct RichLoggerRecord {
    /// Where the record comes from, as `file:line`; empty where that is not
    /// known.
    pub file_name: String,
    pub level: Severity,
    pub content: ContentType,
}

/// What a [`ContentType`] stands for.
pub enum ContentView {
    Text(Seq<char>),
    Json(Seq<TokenView>),
}

/// What a [`RichLoggerRecord`] stands for.
pub struct RecordView {
    pub file_name: Seq<char>,
    pub level: Severity,
    pub content: ContentView,
}

impl View for ContentType {
    type V = ContentView;

    open spec fn view(&self) -> ContentView {
        match self {
            ContentType::TextContent(text) => ContentView::Text(text@),
            ContentType::JsonContent(tokens) => ContentView::Json(token_views(tokens@)),
        }
    }
}

impl View for RichLoggerRecord {
    type V = RecordView;

    open spec fn view(&self) -> RecordView {
        RecordView { file_name: self.file_name@, level: self.level, content: self.content@ }
    }
}

/// The state after one line of text was printed: the line in the content
/// column, on the first line the origin at the right edge, and a line break.
pub open spec fn line_rendered(
    st: RenderState,
    text: Seq<char>,
    width: nat,
    origin: Seq<char>,
    first: bool,
) -> RenderState {
    let shown = st.pad_to(CONTENT_COLUMN as nat).write(text, None);
    let marked = if first {
        origin_placed(shown, width, origin, Some(muted()))
    } else {
        shown
    };
    marked.newline()
}

/// The state after the lines were printed, the first of them with the
/// origin.
pub open spec fn lines_rendered(
    st: RenderState,
    lines: Seq<LineView>,
    width: nat,
    origin: Seq<char>,
) -> RenderState
    decreases lines.len(),
{
    if lines.len() == 0 {
        st
    } else {
        line_rendered(
            lines_rendered(st, lines.drop_last(), width, origin),
            lines.last().text,
            width,
            origin,
            lines.len() == 1,
        )
    }
}

/// The state after a text was printed as content: tabs and carriage returns
/// are taken care of, and the rest is wrapped to the width that the
/// terminal and the origin leave.
pub open spec fn text_rendered(
    st: RenderState,
    text: Seq<char>,
    width: nat,
    origin: Seq<char>,
) -> RenderState {
    lines_rendered(
        st,
        wrapped(normalized(text), usable_width(width, origin.len())),
        width,
        origin,
    )
}

/// The state after the content of a record was printed.
pub open spec fn content_rendered(
    st: RenderState,
    content: ContentView,
    width: nat,
    origin: Seq<char>,
) -> RenderState {
    match content {
        ContentView::Text(text) => text_rendered(st, text, width, origin),
        ContentView::Json(tokens) => json_printed(
            st.pad_to(CONTENT_COLUMN as nat),
            tokens,
            width,
            origin,
        ).newline(),
    }
}

/// The state after the time and the severity of a record were printed.
pub open spec fn head_rendered(
    st: RenderState,
    level: Severity,
    now: int,
    clock: Option<Seq<char>>,
) -> RenderState {
    level_written(
        time_written(st.pad_to(TIME_COLUMN as nat), now, clock).pad_to(LEVEL_COLUMN as nat),
        level,
    )
}

/// The state after a whole record was rendered at the second `now`, for
/// which the clock gives `clock`, on a terminal `width` columns wide.
pub open spec fn record_rendered(
    st: RenderState,
    record: RecordView,
    width: nat,
    now: int,
    clock: Option<Seq<char>>,
) -> RenderState {
    content_rendered(
        head_rendered(st, record.level, now, clock),
        record.content,
        width,
        record.file_name,
    )
}

/// Prints `text` as the content of a record that comes from `file_name`.
pub fn print_text(logger: &mut RichLogger, text: &str, file_name: &str, width: usize)
    requires
        old(logger).wf(),
    ensures
        final(logger).wf(),
        final(logger)@ == text_rendered(old(logger)@, text@, width as nat, file_name@),
{
    let origin_len: usize = file_name.unicode_len();
    let chars = normalize(text);
    let lines = wrap_text(&chars, usable_width_of(width, origin_len));
    let count: usize = lines.len();
    let mut i: usize = 0;
    let ghost views = line_views(lines@);
    assert(views.take(0) =~= Seq::<LineView>::empty());
    while i < count
        invariant
            i <= count == lines@.len(),
            views == line_views(lines@),
            origin_len == file_name@.len(),
            logger.wf(),
            logger@ == lines_rendered(old(logger)@, views.take(i as int), width as nat, file_name@),
        decreases count - i,
    {
        let line = &lines[i];
        proof {
            assert(views.take(i + 1).drop_last() =~= views.take(i as int));
            assert(views.take(i + 1).last() == line@);
            assert(line.text@.subrange(0, line.text@.len() as int) =~= line.text@);
        }
        logger.pad_to_column(CONTENT_COLUMN);
        logger.write_chars(&line.text, 0, line.text.len(), None);
        if i == 0 {
            logger.place_origin(file_name, width, Some(Colors::foreground(Color::Grey)));
        }
        logger.add_newline();
        i = i + 1;
    }
    assert(views.take(count as int) =~= views);
}

/// Renders `record` at the second `now`, for which the clock gives `clock`.
pub fn log_impl_with(
    logger: &mut RichLogger,
    record: &RichLoggerRecord,
    width: usize,
    now: i64,
    clock: Option<&str>,
)
    requires
        old(logger).wf(),
    ensures
        final(logger).wf(),
        final(logger)@ == record_rendered(
            old(logger)@,
            record@,
            width as nat,
            now as int,
            match clock {
                Some(text) => Some(text@),
                None => None,
            },
        ),
{
    logger.pad_to_column(logger.tab_stop(TabStop::Time));
    logger.write_time_with(now, clock);
    logger.pad_to_column(logger.tab_stop(TabStop::Level));
    logger.write_level(record.level);
    print_content(logger, record, width);
}

/// Prints the content of `record`, the head of which stands on the line
/// already.
pub fn print_content(logger: &mut RichLogger, record: &RichLoggerRecord, width: usize)
    requires
        old(logger).wf(),
    ensures
        final(logger).wf(),
        final(logger)@ == content_rendered(
            old(logger)@,
            record@.content,
            width as nat,
            record@.file_name,
        ),
{
    match &record.content {
        ContentType::TextContent(t) => {
            print_text(logger, t.as_str(), record.file_name.as_str(), width);
        },
        ContentType::JsonContent(j) => {
            logger.pad_to_column(logger.tab_stop(TabStop::Content));
            print_json_color(logger, record.file_name.as_str(), j, width);
            logger.add_newline();
        },
    }
}

/// Renders `record` at the second `now` on a terminal `width` columns wide:
/// the time column, the severity column, and the content with the record's
/// origin at the right edge of one of its lines.
pub fn log_impl(logger: &mut RichLogger, record: &RichLoggerRecord, width: usize, now: i64)
    requires
        old(logger).wf(),
    ensures
        final(logger).wf(),
        exists|clock: Option<Seq<char>>|
            {
                &&& is_clock_reading(now as int, clock)
                &&& final(logger)@ == #[trigger] record_rendered(
                    old(logger)@,
                    record@,
                    width as nat,
                    now as int,
                    clock,
                )
            },
        final(logger)@.last_second == now,
        old(logger)@.grown_to(final(logger)@),
{
    logger.pad_to_column(logger.tab_stop(TabStop::Time));
    let ghost start = logger@;
    logger.write_time(now);
    let ghost clock = choose|clock: Option<Seq<char>>|
        {
            &&& is_clock_reading(now as int, clock)
            &&& logger@ == #[trigger] time_written(start, now as int, clock)
        };
    logger.pad_to_column(logger.tab_stop(TabStop::Level));
    logger.write_level(record.level);
    print_content(logger, record, width);
    assert(logger@ == record_rendered(old(logger)@, record@, width as nat, now as int, clock));
    proof {
        lemma_record_rendered_grows(old(logger)@, record@, width as nat, now as int, clock);
    }
}

/// What a message says: the tokens of the JSON document that it is, or,
/// where it is none, its text.
pub open spec fn message_content(parsed: Option<JsonTree>, message: Seq<char>) -> ContentView {
    match parsed {
        Some(tree) => ContentView::Json(tree_tokens(tree)),
        None => ContentView::Text(message),
    }
}

impl RichLoggerRecord {
    /// A record of plain text.
    pub fn text(message: &str, file_name: String, level: Severity) -> (record: RichLoggerRecord)
        ensures
            record@ == (RecordView {
                file_name: file_name@,
                level,
                content: ContentView::Text(message@),
            }),
    {
        RichLoggerRecord {
            file_name,
            level,
            content: ContentType::TextContent(String::from_str(message)),
        }
    }

    /// A record that shows a JSON value.
    pub fn json(value: &JsonValue, file_name: String, level: Severity) -> (record: RichLoggerRecord)
        ensures
            record@ == (RecordView {
                file_name: file_name@,
                level,
                content: ContentView::Json(tree_tokens(value@)),
            }),
    {
        RichLoggerRecord {
            file_name,
            level,
            content: ContentType::JsonContent(tokenize_json_value(value)),
        }
    }

    /// The record of a message that was read as `parsed`: a JSON record
    /// where there is a value, a record of the text where there is none.
    pub fn from_parsed(
        parsed: Option<JsonValue>,
        message: &str,
        file_name: String,
        level: Severity,
    ) -> (record: RichLoggerRecord)
        ensures
            record@ == (RecordView {
                file_name: file_name@,
                level,
                content: message_content(
                    match parsed {
                        Some(value) => Some(value@),
                        None => None,
                    },
                    message@,
                ),
            }),
    {
        match parsed {
            Some(value) => RichLoggerRecord::json(&value, file_name, level),
            None => RichLoggerRecord::text(message, file_name, level),
        }
    }

    /// The record of a message: where the message is a JSON document, the
    /// record shows its tokens; where it is none, the record shows the
    /// message as plain text. No message is refused.
    pub fn from_message(message: &str, file_name: String, level: Severity) -> (record:
        RichLoggerRecord)
        ensures
            record@ == (RecordView {
                file_name: file_name@,
                level,
                content: message_content(json_parsed(message@), message@),
            }),
    {
        RichLoggerRecord::from_parsed(parse_json(message), message, file_name, level)
    }
}

/// Printing lines of text only adds output, and ends in column 0 where
/// there is a line at all.
pub proof fn lemma_lines_rendered_grow(
    st: RenderState,
    lines: Seq<LineView>,
    width: nat,
    origin: Seq<char>,
)
    ensures
        st.grown_to(lines_rendered(st, lines, width, origin)),
        lines_rendered(st, lines, width, origin).last_second == st.last_second,
        lines.len() > 0 ==> lines_rendered(st, lines, width, origin).cursor == 0,
    decreases lines.len(),
{
    if lines.len() > 0 {
        let before = lines_rendered(st, lines.drop_last(), width, origin);
        lemma_lines_rendered_grow(st, lines.drop_last(), width, origin);
        let shown = before.pad_to(CONTENT_COLUMN as nat).write(lines.last().text, None);
        lemma_steps_grow(before, lines.last().text, None, CONTENT_COLUMN as nat);
        lemma_steps_grow(before.pad_to(CONTENT_COLUMN as nat), lines.last().text, None, 0);
        lemma_origin_placed_grows(shown, width, origin, Some(muted()));
        lemma_steps_grow(origin_placed(shown, width, origin, Some(muted())), origin, None, 0);
    }
}

/// Printing the content of a record only adds output, and leaves the
/// remembered second alone.
pub proof fn lemma_content_keeps_second(
    st: RenderState,
    content: ContentView,
    width: nat,
    origin: Seq<char>,
)
    ensures
        st.grown_to(content_rendered(st, content, width, origin)),
        content_rendered(st, content, width, origin).last_second == st.last_second,
{
    match content {
        ContentView::Text(text) => {
            lemma_lines_rendered_grow(
                st,
                wrapped(normalized(text), usable_width(width, origin.len())),
                width,
                origin,
            );
        },
        ContentView::Json(tokens) => {
            lemma_steps_grow(st, origin, None, CONTENT_COLUMN as nat);
            lemma_json_printed_grows(st.pad_to(CONTENT_COLUMN as nat), tokens, width, origin);
        },
    }
}

/// Rendering a record only adds output: what stood on the terminal before
/// stands there unchanged, before anything of the record. The second of the
/// record is the one that is remembered afterwards.
pub proof fn lemma_record_rendered_grows(
    st: RenderState,
    record: RecordView,
    width: nat,
    now: int,
    clock: Option<Seq<char>>,
)
    ensures
        st.grown_to(record_rendered(st, record, width, now, clock)),
        record_rendered(st, record, width, now, clock).last_second == now,
{
    let head = head_rendered(st, record.level, now, clock);
    lemma_content_keeps_second(head, record.content, width, record.file_name);
}

/// The columns of a record: from the start of a line, and with a clock
/// that gives a timestamp of the usual form or none, the severity starts in
/// [`LEVEL_COLUMN`] and the content in [`CONTENT_COLUMN`], whether the
/// timestamp is printed or left out.
pub proof fn lemma_head_columns(st: RenderState, level: Severity, now: int, clock: Option<Seq<char>>)
    requires
        st.cursor == 0,
        clock matches Some(text) ==> is_clock_text(text),
    ensures
        time_written(st.pad_to(TIME_COLUMN as nat), now, clock).cursor == LEVEL_COLUMN,
        head_rendered(st, level, now, clock).cursor == CONTENT_COLUMN,
{
}

/// A text that is not empty has a line.
pub proof fn lemma_wrapped_has_lines(text: Seq<char>, usable: nat)
    requires
        text.len() > 0,
        usable >= 1,
    ensures
        wrapped(text, usable).len() > 0,
{
    if text.len() <= usable {
        lemma_split_lines(text);
    } else {
        lemma_split_lines(text.take(usable as int));
    }
}

/// A record ends its last line: when it is rendered, the cursor is back in
/// column 0. The one exception is a record of a text that has no character
/// left once its carriage returns are taken out: it has no line to end.
pub proof fn lemma_record_ends_line(
    st: RenderState,
    record: RecordView,
    width: nat,
    now: int,
    clock: Option<Seq<char>>,
)
    requires
        record.content matches ContentView::Text(text) ==> normalized(text).len() > 0,
    ensures
        record_rendered(st, record, width, now, clock).cursor == 0,
{
    let head = head_rendered(st, record.level, now, clock);
    match record.content {
        ContentView::Text(text) => {
            let usable = usable_width(width, record.file_name.len());
            lemma_wrapped_has_lines(normalized(text), usable);
            lemma_lines_rendered_grow(head, wrapped(normalized(text), usable), width, record.file_name);
        },
        ContentView::Json(_) => {},
    }
}

/// On a terminal that is wide enough, lines of text that the wrap engine
/// made for it stay within the width.
pub proof fn lemma_lines_rendered_fit(
    st: RenderState,
    lines: Seq<LineView>,
    width: nat,
    origin: Seq<char>,
)
    requires
        has_room(width, origin.len()),
        st.fits(width),
        st.cursor <= CONTENT_COLUMN,
        forall|k: int|
            0 <= k < lines.len() ==> (#[trigger] lines[k]).text.len() <= usable_width(
                width,
                origin.len(),
            ),
    ensures
        lines_rendered(st, lines, width, origin).fits(width),
        lines_rendered(st, lines, width, origin).cursor <= CONTENT_COLUMN,
    decreases lines.len(),
{
    if lines.len() > 0 {
        let before = lines_rendered(st, lines.drop_last(), width, origin);
        assert forall|k: int| 0 <= k < lines.drop_last().len() implies (
        #[trigger] lines.drop_last()[k]).text.len() <= usable_width(width, origin.len()) by {
            assert(lines.drop_last()[k] == lines[k]);
        }
        lemma_lines_rendered_fit(st, lines.drop_last(), width, origin);
        lemma_pad_fits(before, CONTENT_COLUMN as nat, width);
        let started = before.pad_to(CONTENT_COLUMN as nat);
        lemma_write_fits(started, lines.last().text, None, width);
        let shown = started.write(lines.last().text, None);
        lemma_origin_placed_fits(shown, width, origin, Some(muted()));
        if lines.len() == 1 {
            lemma_newline_fits(origin_placed(shown, width, origin, Some(muted())), width);
        } else {
            lemma_newline_fits(shown, width);
        }
    }
}

/// A record never writes beyond the right edge: on a terminal that is wide
/// enough for one character of content beside the origin, and from the
/// start of a line, no line of a rendered record is longer than the
/// terminal is wide.
pub proof fn lemma_record_fits(
    st: RenderState,
    record: RecordView,
    width: nat,
    now: int,
    clock: Option<Seq<char>>,
)
    requires
        has_room(width, record.file_name.len()),
        st.fits(width),
        st.cursor == 0,
        clock matches Some(text) ==> is_clock_text(text),
    ensures
        record_rendered(st, record, width, now, clock).fits(width),
{
    let origin = record.file_name;
    assert(st.pad_to(TIME_COLUMN as nat).cells =~= st.cells);
    lemma_time_and_level_fit(st.pad_to(TIME_COLUMN as nat), record.level, now, clock, width);
    let head = head_rendered(st, record.level, now, clock);
    match record.content {
        ContentView::Text(text) => {
            let usable = usable_width(width, origin.len());
            lemma_wrap_lossless(normalized(text), usable);
            lemma_lines_rendered_fit(head, wrapped(normalized(text), usable), width, origin);
        },
        ContentView::Json(tokens) => {
            lemma_pad_fits(head, CONTENT_COLUMN as nat, width);
            lemma_json_printed_fits(head.pad_to(CONTENT_COLUMN as nat), tokens, width, origin);
            lemma_newline_fits(
                json_printed(head.pad_to(CONTENT_COLUMN as nat), tokens, width, origin),
                width,
            );
        },
    }
}

} // verus!
