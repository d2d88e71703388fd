//! The terminal writer: styled cells and the cursor column.
//!
//! Everything that reaches the terminal passes through [`RichLogger::write_string`]
//! and [`RichLogger::add_newline`], so the cursor column always equals the
//! number of characters on the line that is being written.
use vstd::prelude::*;
use crate::style::Colors;

verus! {

/// One unit of output: a character in its colours, or the end of a line.
#[derive(Clone, Copy, Debug, PartialEq, Eq, Structural)]
pub enum Cell {
    Glyph { ch: char, colors: Option<Colors> },
    LineBreak,
}

/// The cell that shows `ch` in `colors`.
pub open spec fn glyph(ch: char, colors: Option<Colors>) -> Cell {
    Cell::Glyph { ch, colors }
}

/// The cells that printing `text` in `colors` gives.
pub open spec fn glyphs(text: Seq<char>, colors: Option<Colors>) -> Seq<Cell> {
    Seq::new(text.len(), |i: int| glyph(text[i], colors))
}

/// `count` spaces.
pub open spec fn spaces(count: nat) -> Seq<char> {
    Seq::new(count, |i: int| ' ')
}

/// The number of characters on the last line of `cells`: those that follow
/// the last line break.
pub open spec fn column_of(cells: Seq<Cell>) -> nat
    decreases cells.len(),
{
    if cells.len() == 0 {
        0
    } else if cells.last() is LineBreak {
        0
    } else {
        column_of(cells.drop_last()) + 1
    }
}

/// What a [`RichLogger`] stands for: the second whose timestamp was printed
/// last, the cursor column, and the cells written and not yet taken.
pub struct RenderState {
    pub last_second: int,
    pub cursor: nat,
    pub cells: Seq<Cell>,
}

impl RenderState {
    /// The cursor column is the length of the line that is being written.
    pub open spec fn wf(self) -> bool {
        self.cursor == column_of(self.cells)
    }

    /// The state after `text` was printed in `colors`.
    pub open spec fn write(self, text: Seq<char>, colors: Option<Colors>) -> RenderState {
        RenderState {
            last_second: self.last_second,
            cursor: self.cursor + text.len(),
            cells: self.cells + glyphs(text, colors),
        }
    }

    /// The state after the line was ended.
    pub open spec fn newline(self) -> RenderState {
        RenderState { last_second: self.last_second, cursor: 0, cells: self.cells.push(Cell::LineBreak) }
    }

    /// The number of spaces that bring the cursor to `column`: none where it
    /// is there already, or beyond.
    pub open spec fn gap_to(self, column: nat) -> nat {
        if column > self.cursor {
            (column - self.cursor) as nat
        } else {
            0
        }
    }

    /// The state after the line was filled with spaces up to `column`.
    pub open spec fn pad_to(self, column: nat) -> RenderState {
        self.write(spaces(self.gap_to(column)), None)
    }

    /// The state with another second remembered.
    pub open spec fn at_second(self, second: int) -> RenderState {
        RenderState { last_second: second, cursor: self.cursor, cells: self.cells }
    }
}

/// A line never holds more characters than were written.
pub proof fn lemma_column_bounded(cells: Seq<Cell>)
    ensures
        column_of(cells) <= cells.len(),
    decreases cells.len(),
{
    if cells.len() > 0 && !(cells.last() is LineBreak) {
        lemma_column_bounded(cells.drop_last());
    }
}

/// Printing a text moves the column by the number of its characters,
/// whatever they are and whatever was printed before.
pub proof fn lemma_column_after_glyphs(cells: Seq<Cell>, text: Seq<char>, colors: Option<Colors>)
    ensures
        column_of(cells + glyphs(text, colors)) == column_of(cells) + text.len(),
    decreases text.len(),
{
    let all = cells + glyphs(text, colors);
    if text.len() == 0 {
        assert(all =~= cells);
    } else {
        let shorter = text.drop_last();
        lemma_column_after_glyphs(cells, shorter, colors);
        assert(all.drop_last() =~= cells + glyphs(shorter, colors));
        assert(all.last() == Cell::Glyph { ch: text.last(), colors });
    }
}

/// The state after each of `texts` was printed, in order, each in the
/// colours that `colors` gives for it.
pub open spec fn written_all(
    before: RenderState,
    texts: Seq<Seq<char>>,
    colors: Seq<Option<Colors>>,
) -> RenderState
    decreases texts.len(),
{
    if texts.len() == 0 || texts.len() != colors.len() {
        before
    } else {
        written_all(before, texts.drop_last(), colors.drop_last()).write(texts.last(), colors.last())
    }
}

/// The number of characters in all of `texts`.
pub open spec fn total_len(texts: Seq<Seq<char>>) -> nat
    decreases texts.len(),
{
    if texts.len() == 0 {
        0
    } else {
        total_len(texts.drop_last()) + texts.last().len()
    }
}

/// Printing several texts one after the other, in any colours and with no
/// line break between them, moves the column by the sum of their lengths.
pub proof fn lemma_column_after_writes(
    before: RenderState,
    texts: Seq<Seq<char>>,
    colors: Seq<Option<Colors>>,
)
    requires
        before.wf(),
        texts.len() == colors.len(),
    ensures
        written_all(before, texts, colors).wf(),
        written_all(before, texts, colors).cursor == before.cursor + total_len(texts),
    decreases texts.len(),
{
    if texts.len() > 0 {
        lemma_column_after_writes(before, texts.drop_last(), colors.drop_last());
        let mid = written_all(before, texts.drop_last(), colors.drop_last());
        lemma_column_after_glyphs(mid.cells, texts.last(), colors.last());
    }
}

/// The characters of a string slice, one element each.
pub fn chars_of(text: &str) -> (chars: Vec<char>)
    ensures
        chars@ == text@,
{
    let mut chars: Vec<char> = Vec::new();
    for c in it: text.chars()
        invariant
            it.seq() == text@,
            chars@ == text@.take(it.index()),
    {
        chars.push(c);
    }
    assert(chars@ == text@);
    chars
}

/// The renderer's state and its pending output.
///
/// A logger is meant to have one writer at a time. Shared between threads
/// behind a lock that is taken per call, two records that are rendered at
/// once interleave their cells, and the columns of both are lost: keep the
/// lock for a whole record, or render on one thread only.
pub struct RichLogger {
    last_second: i64,
    cursor_pos: usize,
    pending: Vec<Cell>,
}

impl View for RichLogger {
    type V = RenderState;

    closed spec fn view(&self) -> RenderState {
        RenderState {
            last_second: self.last_second as int,
            cursor: self.cursor_pos as nat,
            cells: self.pending@,
        }
    }
}

impl RichLogger {
    /// The cursor column is the length of the line that is being written.
    pub open spec fn wf(&self) -> bool {
        self@.wf()
    }

    /// A logger that has printed nothing.
    pub fn new() -> (logger: RichLogger)
        ensures
            logger.wf(),
            logger@ == (RenderState { last_second: 0, cursor: 0, cells: Seq::empty() }),
    {
        RichLogger { last_second: 0, cursor_pos: 0, pending: Vec::new() }
    }

    /// The cursor column.
    pub fn cursor(&self) -> (column: usize)
        ensures
            column == self@.cursor,
    {
        self.cursor_pos
    }

    /// The second whose timestamp was printed last.
    pub fn last_second(&self) -> (second: i64)
        ensures
            second == self@.last_second,
    {
        self.last_second
    }

    /// Remembers `second` as the one whose timestamp was printed last.
    pub fn update_time(&mut self, second: i64)
        ensures
            final(self)@ == old(self)@.at_second(second as int),
    {
        self.last_second = second;
    }

    /// The cells written and not yet taken.
    pub fn pending(&self) -> (cells: &Vec<Cell>)
        ensures
            cells@ == self@.cells,
    {
        &self.pending
    }

    /// Prints the characters of `text` from `from` up to `to`, in `colors`.
    pub fn write_chars(&mut self, text: &Vec<char>, from: usize, to: usize, colors: Option<Colors>)
        requires
            old(self).wf(),
            from <= to <= text@.len(),
        ensures
            final(self).wf(),
            final(self)@ == old(self)@.write(text@.subrange(from as int, to as int), colors),
    {
        let mut i: usize = from;
        while i < to
            invariant
                from <= i <= to <= text@.len(),
                self.wf(),
                self@ == old(self)@.write(text@.subrange(from as int, i as int), colors),
            decreases to - i,
        {
            let ghost before = self.pending@;
            let ch = text[i];
            self.pending.push(Cell::Glyph { ch, colors });
            let len: usize = self.pending.len();
            proof {
                let shown = text@.subrange(from as int, i as int);
                let next = text@.subrange(from as int, i + 1);
                assert(self.pending@ == before.push(glyph(ch, colors)));
                assert(self.pending@.drop_last() =~= before);
                lemma_column_bounded(self.pending@);
                assert(next =~= shown.push(ch));
                assert(glyphs(next, colors) =~= glyphs(shown, colors).push(glyph(ch, colors)));
                assert(self.pending@ =~= old(self)@.cells + glyphs(next, colors));
            }
            self.cursor_pos = self.cursor_pos + 1;
            i = i + 1;
        }
    }

    /// Prints `text` in `colors` and moves the cursor by the number of its
    /// characters.
    pub fn write_string(&mut self, text: &str, colors: Option<Colors>)
        requires
            old(self).wf(),
        ensures
            final(self).wf(),
            final(self)@ == old(self)@.write(text@, colors),
    {
        let chars = chars_of(text);
        let len: usize = chars.len();
        assert(text@.subrange(0, len as int) =~= text@);
        self.write_chars(&chars, 0, len, colors);
    }

    /// Ends the line: the cursor is back in column 0.
    pub fn add_newline(&mut self)
        requires
            old(self).wf(),
        ensures
            final(self).wf(),
            final(self)@ == old(self)@.newline(),
    {
        self.pending.push(Cell::LineBreak);
        self.cursor_pos = 0;
    }

    /// Fills the line with spaces up to `column`; prints nothing where the
    /// cursor is there already, or beyond.
    pub fn pad_to_column(&mut self, column: usize)
        requires
            old(self).wf(),
        ensures
            final(self).wf(),
            final(self)@ == old(self)@.pad_to(column as nat),
    {
        let ghost gap = old(self)@.gap_to(column as nat);
        while self.cursor_pos < column
            invariant
                self.wf(),
                gap == old(self)@.gap_to(column as nat),
                self.cursor_pos - old(self).cursor_pos <= gap,
                self@ == old(self)@.write(spaces((self.cursor_pos - old(self).cursor_pos) as nat), None),
                old(self).cursor_pos <= self.cursor_pos,
            decreases column - self.cursor_pos,
        {
            let ghost before = self.pending@;
            self.pending.push(Cell::Glyph { ch: ' ', colors: None });
            let len: usize = self.pending.len();
            proof {
                let done = (self.cursor_pos - old(self).cursor_pos) as nat;
                assert(self.pending@ == before.push(glyph(' ', None)));
                assert(self.pending@.drop_last() =~= before);
                lemma_column_bounded(self.pending@);
                assert(glyphs(spaces(done + 1), None) =~= glyphs(spaces(done), None).push(
                    glyph(' ', None),
                ));
                assert(self.pending@ =~= old(self)@.cells + glyphs(spaces(done + 1), None));
            }
            self.cursor_pos = self.cursor_pos + 1;
        }
        proof {
            assert(old(self)@.cells + glyphs(spaces(0), None) =~= old(self)@.cells);
            assert(gap == self.cursor_pos - old(self).cursor_pos);
        }
    }

    /// Hands out the lines that are complete, each with its line break, and
    /// keeps the line that is still being written.
    pub fn take_output(&mut self) -> (lines: Vec<Cell>)
        requires
            old(self).wf(),
        ensures
            final(self).wf(),
            lines@ + final(self)@.cells == old(self)@.cells,
            lines@.len() == 0 || lines@.last() is LineBreak,
            forall|i: int| 0 <= i < final(self)@.cells.len() ==> !(final(self)@.cells[i] is LineBreak),
            final(self)@.cursor == old(self)@.cursor,
            final(self)@.last_second == old(self)@.last_second,
    {
        let mut cut: usize = self.pending.len();
        assert(self.pending@.take(cut as int) =~= self.pending@);
        while cut > 0 && !is_line_break(&self.pending[cut - 1])
            invariant
                cut <= self.pending@.len(),
                self.pending@ == old(self).pending@,
                forall|i: int| cut <= i < self.pending@.len() ==> !(self.pending@[i] is LineBreak),
                column_of(self.pending@) == column_of(self.pending@.take(cut as int)) + (
                self.pending@.len() - cut),
            decreases cut,
        {
            proof {
                let head = self.pending@.take(cut as int);
                assert(head.drop_last() =~= self.pending@.take(cut - 1));
            }
            cut = cut - 1;
            assert(self.pending@.take(self.pending@.len() as int) =~= self.pending@);
        }
        assert(self.pending@.take(self.pending@.len() as int) =~= self.pending@);
        let rest = self.pending.split_off(cut);
        let mut lines = rest;
        std::mem::swap(&mut lines, &mut self.pending);
        proof {
            let all = old(self).pending@;
            assert(lines@ =~= all.take(cut as int));
            assert(lines@ + self.pending@ =~= all);
            lemma_column_no_break(self.pending@);
            if cut > 0 {
                assert(column_of(all.take(cut as int)) == 0);
            }
        }
        lines
    }
}

/// Whether a cell ends a line.
pub fn is_line_break(cell: &Cell) -> (ends: bool)
    ensures
        ends == (*cell is LineBreak),
{
    match cell {
        Cell::LineBreak => true,
        Cell::Glyph { .. } => false,
    }
}

/// A run of cells without a line break is one line.
pub proof fn lemma_column_no_break(cells: Seq<Cell>)
    requires
        forall|i: int| 0 <= i < cells.len() ==> !(cells[i] is LineBreak),
    ensures
        column_of(cells) == cells.len(),
    decreases cells.len(),
{
    if cells.len() > 0 {
        lemma_column_no_break(cells.drop_last());
    }
}

impl RenderState {
    /// Whether `later` is this state with more output: what was written
    /// stands unchanged at the start of what `later` holds.
    pub open spec fn grown_to(self, later: RenderState) -> bool {
        self.cells.is_prefix_of(later.cells)
    }
}

/// Printing, padding and ending a line only add output, and leave the
/// remembered second alone.
pub proof fn lemma_steps_grow(st: RenderState, text: Seq<char>, colors: Option<Colors>, column: nat)
    ensures
        st.grown_to(st.write(text, colors)),
        st.grown_to(st.pad_to(column)),
        st.grown_to(st.newline()),
        st.write(text, colors).last_second == st.last_second,
        st.pad_to(column).last_second == st.last_second,
        st.newline().last_second == st.last_second,
{
}

/// The length of the longest line of `cells`.
pub open spec fn widest_line(cells: Seq<Cell>) -> nat
    decreases cells.len(),
{
    if cells.len() == 0 {
        0
    } else if widest_line(cells.drop_last()) >= column_of(cells) {
        widest_line(cells.drop_last())
    } else {
        column_of(cells)
    }
}

impl RenderState {
    /// Whether the state is well formed and no line of its output is longer
    /// than `width`.
    pub open spec fn fits(self, width: nat) -> bool {
        self.wf() && widest_line(self.cells) <= width
    }
}

/// Printing a text that ends within the width keeps every line within it.
pub proof fn lemma_write_fits(st: RenderState, text: Seq<char>, colors: Option<Colors>, width: nat)
    requires
        st.fits(width),
        st.cursor + text.len() <= width,
    ensures
        st.write(text, colors).fits(width),
    decreases text.len(),
{
    let all = st.cells + glyphs(text, colors);
    lemma_column_after_glyphs(st.cells, text, colors);
    if text.len() == 0 {
        assert(all =~= st.cells);
    } else {
        lemma_write_fits(st, text.drop_last(), colors, width);
        assert(all.drop_last() =~= st.cells + glyphs(text.drop_last(), colors));
    }
}

/// Ending a line keeps every line within the width.
pub proof fn lemma_newline_fits(st: RenderState, width: nat)
    requires
        st.fits(width),
    ensures
        st.newline().fits(width),
{
    assert(st.newline().cells.drop_last() =~= st.cells);
}

/// Padding up to a column within the width keeps every line within it.
pub proof fn lemma_pad_fits(st: RenderState, column: nat, width: nat)
    requires
        st.fits(width),
        column <= width,
    ensures
        st.pad_to(column).fits(width),
        st.pad_to(column).cursor == (if st.cursor >= column {
            st.cursor
        } else {
            column
        }),
{
    lemma_column_bounded_by_widest(st.cells);
    lemma_write_fits(st, spaces(st.gap_to(column)), None, width);
}

/// The line that is being written is no longer than the longest.
pub proof fn lemma_column_bounded_by_widest(cells: Seq<Cell>)
    ensures
        column_of(cells) <= widest_line(cells),
{
}

} // verus!
