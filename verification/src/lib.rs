//! A terminal renderer for log records: column-aligned, colour-coded and
//! aware of the terminal's width.
//!
//! The renderer never touches the terminal itself. It keeps the cursor
//! column and the cached second in a [`RichLogger`], and appends styled
//! cells to that logger's pending output; whoever owns the terminal drains
//! the cells and prints them.
pub mod style;
pub mod screen;
pub mod clock;
pub mod layout;
pub mod wrap;
pub mod escape;
pub mod json;
pub mod document;
pub mod json_print;
pub mod parse;
pub mod origin;
pub mod record;
pub mod dispatch;

pub use dispatch::{Mailbox, Received, WorkerState};
pub use json::{JsonToken, JsonValue, Literal, Member, Operator, TokenKind};
pub use record::{log_impl, ContentType, RichLoggerRecord};
pub use screen::{Cell, RenderState, RichLogger};
pub use style::{Color, Colors, Severity};
