//! The line-wrap engine for plain text.
//!
//! A text is cut into chunks of as many characters as fit on a line, and a
//! chunk into lines wherever it holds a line feed. Each line remembers
//! whether a line feed ended it, so the text can be put together again.
use vstd::prelude::*;

verus! {

/// What a character of the text becomes before it is wrapped: a tab becomes
/// four spaces, a carriage return nothing, anything else itself.
pub open spec fn expanded(c: char) -> Seq<char> {
    if c == '\t' {
        seq![' ', ' ', ' ', ' ']
    } else if c == '\r' {
        Seq::empty()
    } else {
        seq![c]
    }
}

/// The text with each tab replaced by four spaces and each carriage return
/// removed.
pub open spec fn normalized(text: Seq<char>) -> Seq<char>
    decreases text.len(),
{
    if text.len() == 0 {
        Seq::empty()
    } else {
        normalized(text.drop_last()) + expanded(text.last())
    }
}

/// One line of wrapped text.
#[derive(Debug)]
pub struct WrappedLine {
    /// The characters of the line; no line feed is among them.
    pub text: Vec<char>,
    /// Whether a line feed in the text ended the line, rather than the
    /// width.
    pub hard_break: bool,
}

/// What a [`WrappedLine`] stands for.
pub struct LineView {
    pub text: Seq<char>,
    pub hard_break: bool,
}

impl View for WrappedLine {
    type V = LineView;

    open spec fn view(&self) -> LineView {
        LineView { text: self.text@, hard_break: self.hard_break }
    }
}

/// The views of a run of lines, in order.
pub open spec fn line_views(lines: Seq<WrappedLine>) -> Seq<LineView> {
    lines.map_values(|line: WrappedLine| line@)
}

/// The index of the first line feed in `text`; its length where it holds
/// none.
pub open spec fn first_newline(text: Seq<char>) -> int
    decreases text.len(),
{
    if text.len() == 0 {
        0
    } else if text[0] == '\n' {
        0
    } else {
        1 + first_newline(text.drop_first())
    }
}

/// The lines of one chunk: it is cut at each line feed, and the line feeds
/// themselves are left out. There is always a last line, which no line feed
/// ends; it is empty where the chunk ends in a line feed.
pub open spec fn split_lines(chunk: Seq<char>) -> Seq<LineView>
    decreases chunk.len(),
{
    let cut = first_newline(chunk);
    if 0 <= cut < chunk.len() {
        seq![LineView { text: chunk.take(cut), hard_break: true }] + split_lines(
            chunk.skip(cut + 1),
        )
    } else {
        seq![LineView { text: chunk, hard_break: false }]
    }
}

/// The lines of a text on a terminal that has room for `usable` characters
/// of content: the text is cut into chunks of `usable` characters, the last
/// one shorter where the length asks for it, and each chunk into its lines.
/// An empty text has no lines.
pub open spec fn wrapped(text: Seq<char>, usable: nat) -> Seq<LineView>
    decreases text.len(),
{
    if text.len() == 0 || usable == 0 {
        Seq::empty()
    } else if text.len() <= usable {
        split_lines(text)
    } else {
        split_lines(text.take(usable as int)) + wrapped(text.skip(usable as int), usable)
    }
}

/// The text that a run of lines came from: the lines one after the other,
/// with a line feed after each one that a line feed ended.
pub open spec fn rejoined(lines: Seq<LineView>) -> Seq<char>
    decreases lines.len(),
{
    if lines.len() == 0 {
        Seq::empty()
    } else if lines[0].hard_break {
        lines[0].text + seq!['\n'] + rejoined(lines.drop_first())
    } else {
        lines[0].text + rejoined(lines.drop_first())
    }
}

/// Where the first line feed is: no line feed stands before it.
pub proof fn lemma_first_newline(text: Seq<char>)
    ensures
        0 <= first_newline(text) <= text.len(),
        first_newline(text) < text.len() ==> text[first_newline(text)] == '\n',
        forall|i: int| 0 <= i < first_newline(text) ==> text[i] != '\n',
    decreases text.len(),
{
    if text.len() > 0 && text[0] != '\n' {
        let rest = text.drop_first();
        lemma_first_newline(rest);
        assert forall|i: int| 0 <= i < first_newline(text) implies text[i] != '\n' by {
            if i > 0 {
                assert(text[i] == rest[i - 1]);
            }
        }
    }
}

/// An index at which a line feed stands, with none before it, is that of
/// the first line feed; a text without line feeds has it at its end.
pub proof fn lemma_first_newline_at(text: Seq<char>, at: int)
    requires
        0 <= at <= text.len(),
        forall|i: int| 0 <= i < at ==> text[i] != '\n',
        at < text.len() ==> text[at] == '\n',
    ensures
        first_newline(text) == at,
{
    lemma_first_newline(text);
    let found = first_newline(text);
    if found < at {
        assert(text[found] == '\n');
    }
}

/// Putting two runs of lines together again gives the two texts, one after
/// the other.
pub proof fn lemma_rejoined_concat(a: Seq<LineView>, b: Seq<LineView>)
    ensures
        rejoined(a + b) == rejoined(a) + rejoined(b),
    decreases a.len(),
{
    if a.len() == 0 {
        assert(a + b =~= b);
        assert(rejoined(a) + rejoined(b) =~= rejoined(b));
    } else {
        lemma_rejoined_concat(a.drop_first(), b);
        assert((a + b).drop_first() =~= a.drop_first() + b);
        assert((a + b)[0] == a[0]);
        assert(rejoined(a + b) =~= rejoined(a) + rejoined(b));
    }
}

/// The lines of a chunk give the chunk back; none is longer than the chunk,
/// and none holds a line feed.
pub proof fn lemma_split_lines(chunk: Seq<char>)
    ensures
        rejoined(split_lines(chunk)) == chunk,
        split_lines(chunk).len() >= 1,
        forall|k: int|
            0 <= k < split_lines(chunk).len() ==> {
                &&& (#[trigger] split_lines(chunk)[k]).text.len() <= chunk.len()
                &&& forall|i: int|
                    0 <= i < split_lines(chunk)[k].text.len() ==> split_lines(chunk)[k].text[i]
                        != '\n'
            },
    decreases chunk.len(),
{
    lemma_first_newline(chunk);
    let cut = first_newline(chunk);
    let lines = split_lines(chunk);
    if cut < chunk.len() {
        let rest = chunk.skip(cut + 1);
        let head = seq![LineView { text: chunk.take(cut), hard_break: true }];
        lemma_split_lines(rest);
        assert(lines == head + split_lines(rest));
        assert(lines.drop_first() =~= split_lines(rest));
        assert(rejoined(lines) =~= chunk);
        assert forall|k: int| 0 <= k < lines.len() implies {
            &&& (#[trigger] lines[k]).text.len() <= chunk.len()
            &&& forall|i: int| 0 <= i < lines[k].text.len() ==> lines[k].text[i] != '\n'
        } by {
            if k > 0 {
                assert(lines[k] == split_lines(rest)[k - 1]);
            }
        }
    } else {
        assert(lines.drop_first() =~= Seq::<LineView>::empty());
        assert(rejoined(lines.drop_first()) =~= Seq::<char>::empty());
        assert(rejoined(lines) =~= chunk);
    }
}

/// Wrapping loses nothing: whatever the text and whatever the width, the
/// lines put together again are the text. No line is longer than the width,
/// and none holds a line feed.
pub proof fn lemma_wrap_lossless(text: Seq<char>, usable: nat)
    requires
        usable >= 1,
    ensures
        rejoined(wrapped(text, usable)) == text,
        forall|k: int|
            0 <= k < wrapped(text, usable).len() ==> {
                &&& (#[trigger] wrapped(text, usable)[k]).text.len() <= usable
                &&& forall|i: int|
                    0 <= i < wrapped(text, usable)[k].text.len() ==> wrapped(
                        text,
                        usable,
                    )[k].text[i] != '\n'
            },
    decreases text.len(),
{
    let lines = wrapped(text, usable);
    if text.len() == 0 {
        assert(rejoined(lines) =~= text);
    } else if text.len() <= usable {
        lemma_split_lines(text);
    } else {
        let head = text.take(usable as int);
        let tail = text.skip(usable as int);
        lemma_split_lines(head);
        lemma_wrap_lossless(tail, usable);
        lemma_rejoined_concat(split_lines(head), wrapped(tail, usable));
        assert(head + tail =~= text);
        assert forall|k: int| 0 <= k < lines.len() implies {
            &&& (#[trigger] lines[k]).text.len() <= usable
            &&& forall|i: int| 0 <= i < lines[k].text.len() ==> lines[k].text[i] != '\n'
        } by {
            if k < split_lines(head).len() {
                assert(lines[k] == split_lines(head)[k]);
            } else {
                assert(lines[k] == wrapped(tail, usable)[k - split_lines(head).len()]);
            }
        }
    }
}

/// A text without tabs and carriage returns is left as it is.
pub proof fn lemma_normalized_plain(text: Seq<char>)
    requires
        forall|i: int| 0 <= i < text.len() ==> text[i] != '\t' && text[i] != '\r',
    ensures
        normalized(text) == text,
    decreases text.len(),
{
    if text.len() > 0 {
        lemma_normalized_plain(text.drop_last());
        assert(normalized(text) =~= text);
    }
}

/// The characters of `text`, each tab replaced by four spaces and each
/// carriage return left out.
pub fn normalize(text: &str) -> (chars: Vec<char>)
    ensures
        chars@ == normalized(text@),
{
    let mut chars: Vec<char> = Vec::new();
    for c in it: text.chars()
        invariant
            it.seq() == text@,
            chars@ == normalized(text@.take(it.index())),
    {
        proof {
            let next = text@.take(it.index() + 1);
            assert(next.drop_last() =~= text@.take(it.index()));
            assert(next.last() == c);
        }
        let ghost before = chars@;
        if c == '\t' {
            chars.push(' ');
            chars.push(' ');
            chars.push(' ');
            chars.push(' ');
            assert(chars@ =~= before + expanded(c));
        } else if c == '\r' {
            assert(chars@ =~= before + expanded(c));
        } else {
            chars.push(c);
            assert(chars@ =~= before + expanded(c));
        }
    }
    assert(text@.take(text@.len() as int) =~= text@);
    chars
}

/// A copy of the characters of `text` from `from` up to `to`.
pub fn copy_range(text: &Vec<char>, from: usize, to: usize) -> (copy: Vec<char>)
    requires
        from <= to <= text@.len(),
    ensures
        copy@ == text@.subrange(from as int, to as int),
{
    let mut copy: Vec<char> = Vec::new();
    let mut i: usize = from;
    while i < to
        invariant
            from <= i <= to <= text@.len(),
            copy@ == text@.subrange(from as int, i as int),
        decreases to - i,
    {
        copy.push(text[i]);
        assert(copy@ =~= text@.subrange(from as int, i + 1));
        i = i + 1;
    }
    copy
}

/// Appends to `lines` the lines of the chunk of `text` that runs from
/// `from` up to `to`.
pub fn split_chunk(text: &Vec<char>, from: usize, to: usize, lines: &mut Vec<WrappedLine>)
    requires
        from <= to <= text@.len(),
    ensures
        line_views(final(lines)@) == line_views(old(lines)@) + split_lines(
            text@.subrange(from as int, to as int),
        ),
{
    let ghost chunk = text@.subrange(from as int, to as int);
    let ghost mut done: Seq<LineView> = Seq::empty();
    let mut line_start: usize = from;
    let mut i: usize = from;
    assert(line_views(lines@) =~= line_views(old(lines)@) + done);
    assert(done + split_lines(chunk) =~= split_lines(chunk));
    while i < to
        invariant
            from <= line_start <= i <= to <= text@.len(),
            chunk == text@.subrange(from as int, to as int),
            line_views(lines@) == line_views(old(lines)@) + done,
            split_lines(chunk) == done + split_lines(text@.subrange(line_start as int, to as int)),
            forall|j: int| line_start <= j < i ==> text@[j] != '\n',
        decreases to - i,
    {
        if text[i] == '\n' {
            let line = WrappedLine { text: copy_range(text, line_start, i), hard_break: true };
            let ghost before = lines@;
            proof {
                let rest = text@.subrange(line_start as int, to as int);
                lemma_first_newline_at(rest, i - line_start);
                assert(rest.take(i - line_start) =~= text@.subrange(line_start as int, i as int));
                assert(rest.skip(i - line_start + 1) =~= text@.subrange(i + 1, to as int));
                assert(split_lines(rest) == seq![line@] + split_lines(
                    text@.subrange(i + 1, to as int),
                ));
                done = done.push(line@);
            }
            lines.push(line);
            proof {
                assert(line_views(lines@) =~= line_views(before).push(line@));
                assert(line_views(lines@) =~= line_views(old(lines)@) + done);
                assert(split_lines(chunk) =~= done + split_lines(text@.subrange(i + 1, to as int)));
            }
            line_start = i + 1;
        }
        i = i + 1;
    }
    let line = WrappedLine { text: copy_range(text, line_start, to), hard_break: false };
    let ghost before = lines@;
    proof {
        let rest = text@.subrange(line_start as int, to as int);
        lemma_first_newline_at(rest, rest.len() as int);
        assert(split_lines(rest) == seq![line@]);
    }
    lines.push(line);
    proof {
        assert(line_views(lines@) =~= line_views(before).push(line@));
        assert(line_views(lines@) =~= line_views(old(lines)@) + split_lines(chunk));
    }
}

/// The width that is wrapped to: `usable`, or 1 where it is 0.
pub open spec fn clamped(usable: nat) -> nat {
    if usable == 0 {
        1
    } else {
        usable
    }
}

/// Wraps `text` for a terminal that has room for `usable` characters of
/// content on a line; a width of 0 is taken as 1.
pub fn wrap_text(text: &Vec<char>, usable: usize) -> (lines: Vec<WrappedLine>)
    ensures
        line_views(lines@) == wrapped(text@, clamped(usable as nat)),
{
    let width: usize = if usable == 0 {
        1
    } else {
        usable
    };
    let count: usize = text.len();
    let mut lines: Vec<WrappedLine> = Vec::new();
    let mut start: usize = 0;
    assert(text@.skip(0) =~= text@);
    assert(line_views(lines@) =~= Seq::<LineView>::empty());
    assert(line_views(lines@) + wrapped(text@, width as nat) =~= wrapped(text@, width as nat));
    while start < count
        invariant
            start <= count == text@.len(),
            width >= 1,
            wrapped(text@, width as nat) == line_views(lines@) + wrapped(
                text@.skip(start as int),
                width as nat,
            ),
        decreases count - start,
    {
        let end: usize = if count - start <= width {
            count
        } else {
            start + width
        };
        let ghost before = line_views(lines@);
        let ghost rest = text@.skip(start as int);
        proof {
            if count - start <= width {
                assert(rest =~= text@.subrange(start as int, end as int));
                assert(text@.skip(end as int).len() == 0);
                assert(wrapped(text@.skip(end as int), width as nat) =~= Seq::<LineView>::empty());
            } else {
                assert(rest.take(width as int) =~= text@.subrange(start as int, end as int));
                assert(rest.skip(width as int) =~= text@.skip(end as int));
            }
        }
        split_chunk(text, start, end, &mut lines);
        proof {
            let chunk_lines = split_lines(text@.subrange(start as int, end as int));
            assert(wrapped(rest, width as nat) =~= chunk_lines + wrapped(
                text@.skip(end as int),
                width as nat,
            ));
            assert(wrapped(text@, width as nat) =~= line_views(lines@) + wrapped(
                text@.skip(end as int),
                width as nat,
            ));
        }
        start = end;
    }
    assert(wrapped(text@.skip(start as int), width as nat) =~= Seq::<LineView>::empty());
    assert(line_views(lines@) + Seq::<LineView>::empty() =~= line_views(lines@));
    lines
}

} // verus!
