//! Colours and severities.
use vstd::prelude::*;

verus! {

/// The terminal colours that the renderer uses.
#[derive(Clone, Copy, Debug, PartialEq, Eq, Structural)]
pub enum Color {
    Black,
    Red,
    Green,
    Yellow,
    DarkBlue,
    Cyan,
    White,
    Grey,
}

/// A foreground and a background colour, either of which may be left as the
/// terminal has it.
#[derive(Clone, Copy, Debug, PartialEq, Eq, Structural)]
pub struct Colors {
    pub foreground: Option<Color>,
    pub background: Option<Color>,
}

impl Colors {
    /// A foreground colour on the terminal's own background.
    pub open spec fn on_default(foreground: Color) -> Colors {
        Colors { foreground: Some(foreground), background: None }
    }

    /// A foreground colour on the terminal's own background.
    pub fn foreground(foreground: Color) -> (colors: Colors)
        ensures
            colors == Colors::on_default(foreground),
    {
        Colors { foreground: Some(foreground), background: None }
    }
}

/// How serious a record is, from the least to the most serious.
#[derive(Clone, Copy, Debug, PartialEq, Eq, Structural)]
pub enum Severity {
    Trace,
    Debug,
    Info,
    Warn,
    Error,
}

impl Severity {
    /// The place of a severity in the order `Trace < Debug < Info < Warn < Error`.
    pub open spec fn rank_spec(self) -> nat {
        match self {
            Severity::Trace => 0,
            Severity::Debug => 1,
            Severity::Info => 2,
            Severity::Warn => 3,
            Severity::Error => 4,
        }
    }

    /// The name that is printed in the severity column.
    pub open spec fn name_spec(self) -> Seq<char> {
        match self {
            Severity::Trace => seq!['T', 'R', 'A', 'C', 'E'],
            Severity::Debug => seq!['D', 'E', 'B', 'U', 'G'],
            Severity::Info => seq!['I', 'N', 'F', 'O'],
            Severity::Warn => seq!['W', 'A', 'R', 'N'],
            Severity::Error => seq!['E', 'R', 'R', 'O', 'R'],
        }
    }

    /// The colours in which the name is printed.
    pub open spec fn colors_spec(self) -> Colors {
        match self {
            Severity::Trace => Colors::on_default(Color::Green),
            Severity::Debug => Colors::on_default(Color::Cyan),
            Severity::Info => Colors::on_default(Color::White),
            Severity::Warn => Colors::on_default(Color::Yellow),
            Severity::Error => Colors { foreground: Some(Color::Black), background: Some(Color::Red) },
        }
    }

    /// The place of a severity in the order, as a number.
    pub fn rank(self) -> (r: u8)
        ensures
            r == self.rank_spec(),
    {
        match self {
            Severity::Trace => 0,
            Severity::Debug => 1,
            Severity::Info => 2,
            Severity::Warn => 3,
            Severity::Error => 4,
        }
    }

    /// Whether a record of this severity passes a filter that lets through
    /// `minimum` and everything more serious.
    pub fn passes(self, minimum: Severity) -> (through: bool)
        ensures
            through == (minimum.rank_spec() <= self.rank_spec()),
    {
        self.rank() >= minimum.rank()
    }

    /// The name that is printed in the severity column.
    pub fn name(self) -> (text: &'static str)
        ensures
            text@ == self.name_spec(),
    {
        proof {
            reveal_strlit("TRACE");
            reveal_strlit("DEBUG");
            reveal_strlit("INFO");
            reveal_strlit("WARN");
            reveal_strlit("ERROR");
        }
        let text = match self {
            Severity::Trace => "TRACE",
            Severity::Debug => "DEBUG",
            Severity::Info => "INFO",
            Severity::Warn => "WARN",
            Severity::Error => "ERROR",
        };
        assert(text@ =~= self.name_spec());
        text
    }

    /// The colours in which the name is printed.
    pub fn colors(self) -> (colors: Colors)
        ensures
            colors == self.colors_spec(),
    {
        match self {
            Severity::Trace => Colors::foreground(Color::Green),
            Severity::Debug => Colors::foreground(Color::Cyan),
            Severity::Info => Colors::foreground(Color::White),
            Severity::Warn => Colors::foreground(Color::Yellow),
            Severity::Error => Colors { foreground: Some(Color::Black), background: Some(Color::Red) },
        }
    }
}

} // verus!
