//! The columns of a rendered record, and the arithmetic of its widths.
use vstd::prelude::*;
use vstd::string::StrSliceExecFns;
use crate::clock::{is_clock_reading, is_clock_text, local_clock_text, sample_reading};
use crate::screen::{lemma_pad_fits, lemma_write_fits, RenderState, RichLogger};
use crate::style::{Color, Colors, Severity};

verus! {

/// The column in which the timestamp starts.
pub const TIME_COLUMN: usize = 0;

/// The column in which the severity starts.
pub const LEVEL_COLUMN: usize = 11;

/// The column in which the content starts, on the first line and on every
/// line that continues it.
pub const CONTENT_COLUMN: usize = 17;

/// The width that is taken where the terminal reports none.
pub const DEFAULT_WIDTH: u16 = 80;

/// The three tab stops of a record.
#[derive(Clone, Copy, Debug, PartialEq, Eq, Structural)]
pub enum TabStop {
    Time,
    Level,
    Content,
}

impl TabStop {
    /// The column of a tab stop.
    pub open spec fn column_spec(self) -> nat {
        match self {
            TabStop::Time => TIME_COLUMN as nat,
            TabStop::Level => LEVEL_COLUMN as nat,
            TabStop::Content => CONTENT_COLUMN as nat,
        }
    }

    /// The column of a tab stop.
    pub fn column(self) -> (column: usize)
        ensures
            column == self.column_spec(),
    {
        match self {
            TabStop::Time => TIME_COLUMN,
            TabStop::Level => LEVEL_COLUMN,
            TabStop::Content => CONTENT_COLUMN,
        }
    }
}

/// The number of content characters that fit on one line of a terminal
/// `width` columns wide, when the content starts in [`CONTENT_COLUMN`] and
/// the right margin keeps room for an origin of `origin_len` characters and
/// one space before it. Never less than 1, however narrow the terminal.
pub open spec fn usable_width(width: nat, origin_len: nat) -> nat {
    if width > CONTENT_COLUMN + origin_len + 1 {
        (width - CONTENT_COLUMN - origin_len - 1) as nat
    } else {
        1
    }
}

/// The column in which the origin starts so that it ends at the right edge
/// of the terminal; column 0 where it is wider than the terminal.
pub open spec fn origin_column(width: nat, origin_len: nat) -> nat {
    if width > origin_len {
        (width - origin_len) as nat
    } else {
        0
    }
}

/// The state after the line was filled with spaces up to the column of the
/// origin. Where there is no origin, there is nothing to align, and the
/// line is left as it is.
pub open spec fn origin_reached(st: RenderState, width: nat, origin: Seq<char>) -> RenderState {
    if origin.len() == 0 {
        st
    } else {
        st.pad_to(origin_column(width, origin.len()))
    }
}

/// The state after the origin was printed in `colors` so that it ends at
/// the right edge of the terminal. An empty origin changes nothing.
pub open spec fn origin_placed(
    st: RenderState,
    width: nat,
    origin: Seq<char>,
    colors: Option<Colors>,
) -> RenderState {
    origin_reached(st, width, origin).write(origin, colors)
}

/// Placing the origin only adds output.
pub proof fn lemma_origin_placed_grows(
    st: RenderState,
    width: nat,
    origin: Seq<char>,
    colors: Option<Colors>,
)
    ensures
        st.grown_to(origin_reached(st, width, origin)),
        st.grown_to(origin_placed(st, width, origin, colors)),
        origin_reached(st, width, origin).last_second == st.last_second,
        origin_placed(st, width, origin, colors).last_second == st.last_second,
{
}

/// The first column that content may not reach.
pub open spec fn content_limit(width: nat, origin_len: nat) -> nat {
    CONTENT_COLUMN as nat + usable_width(width, origin_len)
}

/// The width to render for: the one that the terminal reports, or
/// [`DEFAULT_WIDTH`] where it reports none.
pub fn effective_width(reported: Option<u16>) -> (width: usize)
    ensures
        width == match reported {
            Some(w) => w as usize,
            None => DEFAULT_WIDTH as usize,
        },
{
    match reported {
        Some(w) => w as usize,
        None => DEFAULT_WIDTH as usize,
    }
}

/// Computes [`usable_width`].
pub fn usable_width_of(width: usize, origin_len: usize) -> (usable: usize)
    ensures
        usable == usable_width(width as nat, origin_len as nat),
        usable >= 1,
{
    if width > CONTENT_COLUMN && width - CONTENT_COLUMN > origin_len && width - CONTENT_COLUMN
        - origin_len > 1 {
        width - CONTENT_COLUMN - origin_len - 1
    } else {
        1
    }
}

/// Computes [`origin_column`].
pub fn origin_column_of(width: usize, origin_len: usize) -> (column: usize)
    ensures
        column == origin_column(width as nat, origin_len as nat),
{
    if width > origin_len {
        width - origin_len
    } else {
        0
    }
}

/// Computes [`content_limit`].
pub fn content_limit_of(width: usize, origin_len: usize) -> (limit: usize)
    ensures
        limit == content_limit(width as nat, origin_len as nat),
        limit > CONTENT_COLUMN,
{
    CONTENT_COLUMN + usable_width_of(width, origin_len)
}

/// The colours of the timestamp and of the origin.
pub open spec fn muted() -> Colors {
    Colors::on_default(Color::Grey)
}

/// The state after the time column was written at the second `now`, when
/// the clock gives `clock` for that second.
///
/// Within one second the timestamp is printed once: where `now` is the
/// second that was printed last, the column is left blank. It is left blank
/// too where the clock has no text for `now`.
pub open spec fn time_written(st: RenderState, now: int, clock: Option<Seq<char>>) -> RenderState {
    if st.last_second == now {
        st.pad_to(LEVEL_COLUMN as nat)
    } else {
        match clock {
            Some(text) => st.at_second(now).write(text, Some(muted())),
            None => st.at_second(now).pad_to(LEVEL_COLUMN as nat),
        }
    }
}

/// The state after the severity column was written.
pub open spec fn level_written(st: RenderState, level: Severity) -> RenderState {
    st.write(level.name_spec(), Some(level.colors_spec())).pad_to(CONTENT_COLUMN as nat)
}

/// The time column is as wide when its timestamp is left out as when it is
/// printed: from the start of a line, the cursor ends in [`LEVEL_COLUMN`]
/// either way.
pub proof fn lemma_time_column_width(st: RenderState, now: int, clock: Option<Seq<char>>)
    requires
        st.cursor == 0,
        clock matches Some(text) ==> is_clock_text(text),
    ensures
        time_written(st, now, clock).cursor == LEVEL_COLUMN,
        time_written(st.at_second(now), now, clock).cursor == LEVEL_COLUMN,
        time_written(st, now, clock).cells.len() == st.cells.len() + LEVEL_COLUMN,
        time_written(st.at_second(now), now, clock).cells.len() == st.cells.len() + LEVEL_COLUMN,
{
}

impl RichLogger {
    /// The column of a tab stop.
    pub fn tab_stop(&self, tab_stop: TabStop) -> (column: usize)
        ensures
            column == tab_stop.column_spec(),
    {
        tab_stop.column()
    }

    /// Writes the time column at the second `now`, for which the clock gives
    /// `clock`.
    pub fn write_time_with(&mut self, now: i64, clock: Option<&str>)
        requires
            old(self).wf(),
        ensures
            final(self).wf(),
            final(self)@ == time_written(
                old(self)@,
                now as int,
                match clock {
                    Some(text) => Some(text@),
                    None => None,
                },
            ),
    {
        if self.last_second() == now {
            self.pad_to_column(LEVEL_COLUMN);
        } else {
            self.update_time(now);
            match clock {
                Some(text) => {
                    self.write_string(text, Some(Colors::foreground(Color::Grey)));
                },
                None => {
                    self.pad_to_column(LEVEL_COLUMN);
                },
            }
        }
    }

    /// Writes the time column at the second `now`: the local time of day as
    /// `[HH:MM:SS] `, or blanks of the same width where `now` is the second
    /// that was printed last, or a second that the clock cannot show.
    pub fn write_time(&mut self, now: i64)
        requires
            old(self).wf(),
        ensures
            final(self).wf(),
            exists|clock: Option<Seq<char>>|
                {
                    &&& is_clock_reading(now as int, clock)
                    &&& final(self)@ == #[trigger] time_written(old(self)@, now as int, clock)
                },
            final(self)@.last_second == now,
            old(self)@.cursor == 0 ==> final(self)@.cursor == LEVEL_COLUMN,
    {
        if self.last_second() == now {
            self.write_time_with(now, None);
            assert(self@ == time_written(old(self)@, now as int, sample_reading(now as int)));
        } else {
            let clock = local_clock_text(now);
            match &clock {
                Some(text) => {
                    self.write_time_with(now, Some(text.as_str()));
                    assert(self@ == time_written(old(self)@, now as int, Some(text@)));
                },
                None => {
                    self.write_time_with(now, None);
                    assert(self@ == time_written(old(self)@, now as int, None));
                },
            }
        }
    }

    /// Fills the line up to the column in which an origin of `origin`'s
    /// length ends at the right edge; does nothing where `origin` is empty.
    pub fn reach_origin(&mut self, origin: &str, width: usize)
        requires
            old(self).wf(),
        ensures
            final(self).wf(),
            final(self)@ == origin_reached(old(self)@, width as nat, origin@),
    {
        let origin_len: usize = origin.unicode_len();
        if origin_len > 0 {
            self.pad_to_column(origin_column_of(width, origin_len));
        }
    }

    /// Prints `origin` in `colors` so that it ends at the right edge of the
    /// terminal; prints nothing where `origin` is empty.
    pub fn place_origin(&mut self, origin: &str, width: usize, colors: Option<Colors>)
        requires
            old(self).wf(),
        ensures
            final(self).wf(),
            final(self)@ == origin_placed(old(self)@, width as nat, origin@, colors),
    {
        self.reach_origin(origin, width);
        self.write_string(origin, colors);
    }

    /// Writes the severity column: the name of `level` in its colours, then
    /// blanks up to the content column.
    pub fn write_level(&mut self, level: Severity)
        requires
            old(self).wf(),
        ensures
            final(self).wf(),
            final(self)@ == level_written(old(self)@, level),
    {
        self.write_string(level.name(), Some(level.colors()));
        self.pad_to_column(CONTENT_COLUMN);
    }
}

/// Placing the origin after content that left room for it, and for a space
/// before it, ends the line exactly at the right edge.
pub proof fn lemma_origin_placed_fits(
    st: RenderState,
    width: nat,
    origin: Seq<char>,
    colors: Option<Colors>,
)
    requires
        st.fits(width),
        st.cursor + origin.len() <= width,
    ensures
        origin_reached(st, width, origin).fits(width),
        origin_placed(st, width, origin, colors).fits(width),
        origin_reached(st, width, origin).cursor + origin.len() <= width,
        origin.len() > 0 ==> origin_placed(st, width, origin, colors).cursor == width,
{
    let reached = origin_reached(st, width, origin);
    if origin.len() > 0 {
        lemma_pad_fits(st, origin_column(width, origin.len()), width);
    }
    lemma_write_fits(reached, origin, colors, width);
}

/// The head of a record stays within the first columns: from the start of
/// a line, nothing of it reaches beyond [`CONTENT_COLUMN`].
pub proof fn lemma_time_and_level_fit(
    st: RenderState,
    level: Severity,
    now: int,
    clock: Option<Seq<char>>,
    width: nat,
)
    requires
        st.fits(width),
        st.cursor == 0,
        width >= CONTENT_COLUMN,
        clock matches Some(text) ==> is_clock_text(text),
    ensures
        level_written(time_written(st, now, clock).pad_to(LEVEL_COLUMN as nat), level).fits(width),
        level_written(time_written(st, now, clock).pad_to(LEVEL_COLUMN as nat), level).cursor
            == CONTENT_COLUMN,
{
    let timed = time_written(st, now, clock);
    if st.last_second == now {
        lemma_pad_fits(st, LEVEL_COLUMN as nat, width);
    } else {
        match clock {
            Some(text) => {
                lemma_write_fits(st.at_second(now), text, Some(muted()), width);
            },
            None => {
                lemma_pad_fits(st.at_second(now), LEVEL_COLUMN as nat, width);
            },
        }
    }
    lemma_pad_fits(timed, LEVEL_COLUMN as nat, width);
    let stopped = timed.pad_to(LEVEL_COLUMN as nat);
    lemma_write_fits(stopped, level.name_spec(), Some(level.colors_spec()), width);
    lemma_pad_fits(
        stopped.write(level.name_spec(), Some(level.colors_spec())),
        CONTENT_COLUMN as nat,
        width,
    );
}

} // verus!
