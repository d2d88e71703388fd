//! The wall clock, as the timestamp column shows it.
use vstd::prelude::*;

verus! {

/// Whether `c` is a decimal digit.
pub open spec fn is_digit(c: char) -> bool {
    '0' <= c && c <= '9'
}

/// Whether `text` has the form `[HH:MM:SS] `, with a space at its end:
/// eleven characters, the six that are not punctuation being digits.
pub open spec fn is_clock_text(text: Seq<char>) -> bool {
    &&& text.len() == 11
    &&& text[0] == '['
    &&& is_digit(text[1])
    &&& is_digit(text[2])
    &&& text[3] == ':'
    &&& is_digit(text[4])
    &&& is_digit(text[5])
    &&& text[6] == ':'
    &&& is_digit(text[7])
    &&& is_digit(text[8])
    &&& text[9] == ']'
    &&& text[10] == ' '
}

/// The first second that the clock can show: 0:00:00 on January 1 of the
/// year -262143, in universal time.
pub const FIRST_SECOND: i64 = -8_334_601_228_800;

/// The last second that the clock can show: 23:59:59 on December 31 of the
/// year 262142, in universal time.
pub const LAST_SECOND: i64 = 8_210_266_876_799;

/// Whether the clock has a text for a second: the second lies in the years
/// that the calendar of the clock covers.
pub open spec fn clock_shows(second: int) -> bool {
    FIRST_SECOND <= second <= LAST_SECOND
}

/// Whether `clock` is something that the clock can give for a second: a text
/// of the form `[HH:MM:SS] ` where it shows the second, and nothing where it
/// does not.
pub open spec fn is_clock_reading(second: int, clock: Option<Seq<char>>) -> bool {
    &&& clock is Some <==> clock_shows(second)
    &&& clock matches Some(text) ==> is_clock_text(text)
}

/// One of the readings that the clock can give for a second.
pub open spec fn sample_reading(second: int) -> Option<Seq<char>> {
    if clock_shows(second) {
        Some(seq!['[', '0', '0', ':', '0', '0', ':', '0', '0', ']', ' '])
    } else {
        None
    }
}

/// The time of day of the instant `second` seconds after the Unix epoch, in
/// the time zone of this machine, as `[HH:MM:SS] `.
///
/// Calls chrono's `DateTime::from_timestamp`, `DateTime::with_timezone` with
/// `Local`, and `DateTime::format`. The contract is trusted. There is a text
/// exactly where chrono has a date for the second, which is where the day of
/// the second lies in the years -262143 to 262142, whatever the time zone;
/// the text has the form that the pattern gives it, each of `%H`, `%M` and
/// `%S` being two digits. Which digits they are depends on the time zone and
/// is not stated.
#[verifier::external_body]
pub(crate) fn local_clock_text(second: i64) -> (text: Option<String>)
    ensures
        is_clock_reading(
            second as int,
            match text {
                Some(t) => Some(t@),
                None => None,
            },
        ),
{
    chrono::DateTime::from_timestamp(second, 0).map(
        |utc| utc.with_timezone(&chrono::Local).format("[%H:%M:%S] ").to_string(),
    )
}

} // verus!
