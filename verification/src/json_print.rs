//! Printing a run of JSON tokens, with line breaks where a token does not
//! fit and the origin at the right edge of one line.
use vstd::prelude::*;
use vstd::string::StrSliceExecFns;
use crate::json::{JsonToken, KindView, Literal, TokenKind, TokenView, token_views};
use crate::layout::{
    content_limit, content_limit_of, lemma_origin_placed_fits, lemma_origin_placed_grows,
    origin_placed, origin_reached,
    CONTENT_COLUMN,
};
use crate::screen::{
    chars_of, lemma_newline_fits, lemma_pad_fits, lemma_steps_grow, lemma_write_fits, RenderState,
    RichLogger,
};
use crate::style::{Color, Colors};

verus! {

/// The colours of a token: one for each kind of literal, none for the
/// structural tokens.
pub open spec fn kind_colors(kind: KindView) -> Option<Colors> {
    match kind {
        KindView::Operator(_) => None,
        KindView::StringLiteral(_) => Some(Colors::on_default(Color::Green)),
        KindView::NumberLiteral(_) => Some(Colors::on_default(Color::DarkBlue)),
        KindView::BooleanLiteral(_) => Some(Colors::on_default(Color::Red)),
        KindView::NullLiteral => Some(Colors::on_default(Color::Yellow)),
    }
}

/// The number of characters that still fit on the line.
pub open spec fn room(st: RenderState, width: nat, origin_len: nat) -> nat {
    if content_limit(width, origin_len) > st.cursor {
        (content_limit(width, origin_len) - st.cursor) as nat
    } else {
        0
    }
}

/// The state after a line was broken in the middle of the content: the line
/// is filled up to the origin's column, the origin is printed if it is still
/// owed, and the next line starts in the content column.
pub open spec fn line_broken(st: RenderState, width: nat, origin: Seq<char>, owed: bool) -> RenderState {
    let filled = origin_reached(st, width, origin);
    let marked = if owed {
        filled.write(origin, None)
    } else {
        filled
    };
    marked.newline().pad_to(CONTENT_COLUMN as nat)
}

/// The state after `text` was printed in `colors`, broken wherever the line
/// was full. The origin goes to the end of the first line that is broken, if
/// it is still owed.
pub open spec fn safe_wrapped(
    st: RenderState,
    text: Seq<char>,
    colors: Option<Colors>,
    width: nat,
    origin: Seq<char>,
    owed: bool,
) -> RenderState
    decreases text.len(), (if room(st, width, origin.len()) == 0 { 1nat } else { 0nat }),
{
    let fits = room(st, width, origin.len());
    if text.len() <= fits {
        st.write(text, colors)
    } else {
        safe_wrapped(
            line_broken(st.write(text.take(fits as int), colors), width, origin, owed),
            text.skip(fits as int),
            colors,
            width,
            origin,
            false,
        )
    }
}

/// Whether printing `text` breaks the line.
pub open spec fn breaks_line(st: RenderState, text: Seq<char>, width: nat, origin_len: nat) -> bool {
    text.len() > room(st, width, origin_len)
}

/// The state after the tokens were printed one after the other, and whether
/// the origin is still owed then.
pub open spec fn tokens_printed(
    st: RenderState,
    tokens: Seq<TokenView>,
    width: nat,
    origin: Seq<char>,
    owed: bool,
) -> (RenderState, bool)
    decreases tokens.len(),
{
    if tokens.len() == 0 {
        (st, owed)
    } else {
        let (before, owed_before) = tokens_printed(st, tokens.drop_last(), width, origin, owed);
        let token = tokens.last();
        (
            safe_wrapped(before, token.content, kind_colors(token.kind), width, origin, owed_before),
            owed_before && !breaks_line(before, token.content, width, origin.len()),
        )
    }
}

/// The state after a whole run of tokens was printed with its origin: at
/// the end of the first line that was broken, or, where none was, at the
/// right edge of the only line.
pub open spec fn json_printed(
    st: RenderState,
    tokens: Seq<TokenView>,
    width: nat,
    origin: Seq<char>,
) -> RenderState {
    let (body, owed) = tokens_printed(st, tokens, width, origin, true);
    if owed {
        origin_placed(body, width, origin, None)
    } else {
        body
    }
}

impl JsonToken {
    /// The colours in which the token is printed.
    pub fn colors(&self) -> (colors: Option<Colors>)
        ensures
            colors == kind_colors(self@.kind),
    {
        match &self.kind {
            TokenKind::Operator(_) => None,
            TokenKind::Literal(Literal::StringLiteral(_)) => Some(Colors::foreground(Color::Green)),
            TokenKind::Literal(Literal::NumberLiteral(_)) => Some(
                Colors::foreground(Color::DarkBlue),
            ),
            TokenKind::Literal(Literal::BooleanLiteral(_)) => Some(Colors::foreground(Color::Red)),
            TokenKind::Literal(Literal::NullLiteral) => Some(Colors::foreground(Color::Yellow)),
        }
    }
}

/// Prints `text` in `color`. Where it does not fit on the line, prints what
/// fits, fills the line, prints `file_name` at its end if `print_filename`
/// says that it is still owed, and goes on in the content column of the
/// next line, as often as it takes. Tells whether `file_name` was printed.
pub fn safe_wrap_print_json(
    logger: &mut RichLogger,
    text: &str,
    color: Option<Colors>,
    width: usize,
    file_name: &str,
    print_filename: bool,
) -> (printed: bool)
    requires
        old(logger).wf(),
    ensures
        final(logger).wf(),
        final(logger)@ == safe_wrapped(
            old(logger)@,
            text@,
            color,
            width as nat,
            file_name@,
            print_filename,
        ),
        printed == (print_filename && breaks_line(
            old(logger)@,
            text@,
            width as nat,
            file_name@.len(),
        )),
{
    let chars = chars_of(text);
    let origin_len: usize = file_name.unicode_len();
    let limit: usize = content_limit_of(width, origin_len);
    let count: usize = chars.len();
    let mut start: usize = 0;
    let mut owed: bool = print_filename;
    let mut broken: bool = false;
    assert(text@.skip(0) =~= text@);
    loop
        invariant
            start <= count == text@.len(),
            chars@ == text@,
            origin_len == file_name@.len(),
            limit == content_limit(width as nat, origin_len as nat),
            logger.wf(),
            safe_wrapped(old(logger)@, text@, color, width as nat, file_name@, print_filename)
                == safe_wrapped(
                logger@,
                text@.skip(start as int),
                color,
                width as nat,
                file_name@,
                owed,
            ),
            !broken ==> start == 0 && owed == print_filename && logger@ == old(logger)@,
            broken ==> !owed && breaks_line(old(logger)@, text@, width as nat, file_name@.len()),
        decreases
                count - start,
                (if room(logger@, width as nat, origin_len as nat) == 0 {
                    1nat
                } else {
                    0nat
                }),
    {
        let cursor: usize = logger.cursor();
        let fits: usize = if limit > cursor {
            limit - cursor
        } else {
            0
        };
        assert(fits == room(logger@, width as nat, origin_len as nat));
        if count - start <= fits {
            assert(text@.skip(start as int) =~= text@.subrange(start as int, count as int));
            logger.write_chars(&chars, start, count, color);
            return print_filename && broken;
        }
        proof {
            assert(text@.skip(start as int).take(fits as int) =~= text@.subrange(
                start as int,
                start + fits,
            ));
            assert(text@.skip(start as int).skip(fits as int) =~= text@.skip(start + fits));
        }
        logger.write_chars(&chars, start, start + fits, color);
        logger.reach_origin(file_name, width);
        if owed {
            logger.write_string(file_name, None);
        }
        logger.add_newline();
        logger.pad_to_column(CONTENT_COLUMN);
        owed = false;
        broken = true;
        start = start + fits;
    }
}

/// Prints a run of tokens, each in its colours, and `file_name` once: at
/// the end of the first line that had to be broken, or, where the tokens fit
/// on one line, at the right edge of that line.
pub fn print_json_color(logger: &mut RichLogger, file_name: &str, j: &Vec<JsonToken>, width: usize)
    requires
        old(logger).wf(),
    ensures
        final(logger).wf(),
        final(logger)@ == json_printed(old(logger)@, token_views(j@), width as nat, file_name@),
{
    let mut should_print_filename: bool = true;
    let count: usize = j.len();
    let mut i: usize = 0;
    assert(token_views(j@).take(0) =~= Seq::<TokenView>::empty());
    while i < count
        invariant
            i <= count == j@.len(),
            logger.wf(),
            (logger@, should_print_filename) == tokens_printed(
                old(logger)@,
                token_views(j@).take(i as int),
                width as nat,
                file_name@,
                true,
            ),
        decreases count - i,
    {
        let token = &j[i];
        proof {
            let views = token_views(j@);
            assert(views.take(i + 1).drop_last() =~= views.take(i as int));
            assert(views.take(i + 1).last() == token@);
        }
        let printed = safe_wrap_print_json(
            logger,
            token.content.as_str(),
            token.colors(),
            width,
            file_name,
            should_print_filename,
        );
        should_print_filename = should_print_filename && !printed;
        i = i + 1;
    }
    assert(token_views(j@).take(count as int) =~= token_views(j@));
    if should_print_filename {
        logger.place_origin(file_name, width, None);
    }
}

/// Breaking a line only adds output, and the next line starts in the
/// content column.
pub proof fn lemma_line_broken(st: RenderState, width: nat, origin: Seq<char>, owed: bool)
    ensures
        st.grown_to(line_broken(st, width, origin, owed)),
        line_broken(st, width, origin, owed).last_second == st.last_second,
        line_broken(st, width, origin, owed).cursor == CONTENT_COLUMN,
{
    let filled = origin_reached(st, width, origin);
    let marked = if owed {
        filled.write(origin, None)
    } else {
        filled
    };
    lemma_origin_placed_grows(st, width, origin, None);
    lemma_steps_grow(filled, origin, None, 0);
    lemma_steps_grow(marked, origin, None, 0);
    lemma_steps_grow(marked.newline(), origin, None, CONTENT_COLUMN as nat);
}

/// Printing a text with line breaks only adds output.
pub proof fn lemma_safe_wrapped_grows(
    st: RenderState,
    text: Seq<char>,
    colors: Option<Colors>,
    width: nat,
    origin: Seq<char>,
    owed: bool,
)
    ensures
        st.grown_to(safe_wrapped(st, text, colors, width, origin, owed)),
        safe_wrapped(st, text, colors, width, origin, owed).last_second == st.last_second,
    decreases text.len(), (if room(st, width, origin.len()) == 0 { 1nat } else { 0nat }),
{
    let fits = room(st, width, origin.len());
    if text.len() > fits {
        let shown = st.write(text.take(fits as int), colors);
        let next = line_broken(shown, width, origin, owed);
        lemma_steps_grow(st, text.take(fits as int), colors, 0);
        lemma_line_broken(shown, width, origin, owed);
        lemma_safe_wrapped_grows(next, text.skip(fits as int), colors, width, origin, false);
    }
}

/// Printing a run of tokens only adds output.
pub proof fn lemma_tokens_printed_grow(
    st: RenderState,
    tokens: Seq<TokenView>,
    width: nat,
    origin: Seq<char>,
    owed: bool,
)
    ensures
        st.grown_to(tokens_printed(st, tokens, width, origin, owed).0),
        tokens_printed(st, tokens, width, origin, owed).0.last_second == st.last_second,
    decreases tokens.len(),
{
    if tokens.len() > 0 {
        let (before, owed_before) = tokens_printed(st, tokens.drop_last(), width, origin, owed);
        let token = tokens.last();
        lemma_tokens_printed_grow(st, tokens.drop_last(), width, origin, owed);
        lemma_safe_wrapped_grows(
            before,
            token.content,
            kind_colors(token.kind),
            width,
            origin,
            owed_before,
        );
    }
}

/// Printing a JSON document with its origin only adds output.
pub proof fn lemma_json_printed_grows(
    st: RenderState,
    tokens: Seq<TokenView>,
    width: nat,
    origin: Seq<char>,
)
    ensures
        st.grown_to(json_printed(st, tokens, width, origin)),
        json_printed(st, tokens, width, origin).last_second == st.last_second,
{
    let (body, owed) = tokens_printed(st, tokens, width, origin, true);
    lemma_tokens_printed_grow(st, tokens, width, origin, true);
    lemma_origin_placed_grows(body, width, origin, None);
}

/// Whether a terminal is wide enough for content beside an origin of
/// `origin_len` characters: at least one character of content fits between
/// the content column and the space before the origin.
pub open spec fn has_room(width: nat, origin_len: nat) -> bool {
    width > CONTENT_COLUMN + origin_len + 1
}

/// On a terminal that is wide enough, a text that is printed with line
/// breaks stays within the width, and ends before the room of the origin.
pub proof fn lemma_safe_wrapped_fits(
    st: RenderState,
    text: Seq<char>,
    colors: Option<Colors>,
    width: nat,
    origin: Seq<char>,
    owed: bool,
)
    requires
        has_room(width, origin.len()),
        st.fits(width),
        st.cursor <= content_limit(width, origin.len()),
    ensures
        safe_wrapped(st, text, colors, width, origin, owed).fits(width),
        safe_wrapped(st, text, colors, width, origin, owed).cursor <= content_limit(
            width,
            origin.len(),
        ),
    decreases text.len(), (if room(st, width, origin.len()) == 0 { 1nat } else { 0nat }),
{
    let fits = room(st, width, origin.len());
    if text.len() <= fits {
        lemma_write_fits(st, text, colors, width);
    } else {
        let shown = st.write(text.take(fits as int), colors);
        lemma_write_fits(st, text.take(fits as int), colors, width);
        lemma_origin_placed_fits(shown, width, origin, None);
        let filled = origin_reached(shown, width, origin);
        let marked = if owed {
            filled.write(origin, None)
        } else {
            filled
        };
        lemma_newline_fits(marked, width);
        lemma_pad_fits(marked.newline(), CONTENT_COLUMN as nat, width);
        lemma_safe_wrapped_fits(
            line_broken(shown, width, origin, owed),
            text.skip(fits as int),
            colors,
            width,
            origin,
            false,
        );
    }
}

/// On a terminal that is wide enough, a run of tokens stays within the
/// width.
pub proof fn lemma_tokens_printed_fit(
    st: RenderState,
    tokens: Seq<TokenView>,
    width: nat,
    origin: Seq<char>,
    owed: bool,
)
    requires
        has_room(width, origin.len()),
        st.fits(width),
        st.cursor <= content_limit(width, origin.len()),
    ensures
        tokens_printed(st, tokens, width, origin, owed).0.fits(width),
        tokens_printed(st, tokens, width, origin, owed).0.cursor <= content_limit(
            width,
            origin.len(),
        ),
    decreases tokens.len(),
{
    if tokens.len() > 0 {
        let (before, owed_before) = tokens_printed(st, tokens.drop_last(), width, origin, owed);
        let token = tokens.last();
        lemma_tokens_printed_fit(st, tokens.drop_last(), width, origin, owed);
        lemma_safe_wrapped_fits(
            before,
            token.content,
            kind_colors(token.kind),
            width,
            origin,
            owed_before,
        );
    }
}

/// On a terminal that is wide enough, a JSON document and its origin stay
/// within the width.
pub proof fn lemma_json_printed_fits(
    st: RenderState,
    tokens: Seq<TokenView>,
    width: nat,
    origin: Seq<char>,
)
    requires
        has_room(width, origin.len()),
        st.fits(width),
        st.cursor <= content_limit(width, origin.len()),
    ensures
        json_printed(st, tokens, width, origin).fits(width),
{
    let (body, owed) = tokens_printed(st, tokens, width, origin, true);
    lemma_tokens_printed_fit(st, tokens, width, origin, true);
    lemma_origin_placed_fits(body, width, origin, None);
}

/// The pieces into which a text is cut when it is printed from the column
/// `cursor` on: what fits on the line that is being written, then what fits
/// on each line that starts in the content column.
pub open spec fn token_pieces(cursor: nat, text: Seq<char>, width: nat, origin_len: nat) -> Seq<
    Seq<char>,
>
    decreases text.len(), (if content_limit(width, origin_len) > cursor { 0nat } else { 1nat }),
{
    let fits = if content_limit(width, origin_len) > cursor {
        (content_limit(width, origin_len) - cursor) as nat
    } else {
        0
    };
    if text.len() <= fits {
        seq![text]
    } else {
        seq![text.take(fits as int)] + token_pieces(
            CONTENT_COLUMN as nat,
            text.skip(fits as int),
            width,
            origin_len,
        )
    }
}

/// The pieces of a text, one after the other.
pub open spec fn pieces_joined(pieces: Seq<Seq<char>>) -> Seq<char>
    decreases pieces.len(),
{
    if pieces.len() == 0 {
        Seq::empty()
    } else {
        pieces[0] + pieces_joined(pieces.drop_first())
    }
}

/// The state after the pieces were printed in `colors`, with a line break
/// after each but the last, and the origin at the first break if it is owed.
pub open spec fn pieces_printed(
    st: RenderState,
    pieces: Seq<Seq<char>>,
    colors: Option<Colors>,
    width: nat,
    origin: Seq<char>,
    owed: bool,
) -> RenderState
    decreases pieces.len(),
{
    if pieces.len() == 0 {
        st
    } else if pieces.len() == 1 {
        st.write(pieces[0], colors)
    } else {
        pieces_printed(
            line_broken(st.write(pieces[0], colors), width, origin, owed),
            pieces.drop_first(),
            colors,
            width,
            origin,
            false,
        )
    }
}

/// Wrapping a token loses nothing: what is printed for it are its pieces,
/// in its colours, with nothing between them but line breaks, padding and
/// the origin; and the pieces, put together again, are the text.
pub proof fn lemma_token_wrap_lossless(
    st: RenderState,
    text: Seq<char>,
    colors: Option<Colors>,
    width: nat,
    origin: Seq<char>,
    owed: bool,
)
    ensures
        pieces_joined(token_pieces(st.cursor, text, width, origin.len())) == text,
        token_pieces(st.cursor, text, width, origin.len()).len() >= 1,
        safe_wrapped(st, text, colors, width, origin, owed) == pieces_printed(
            st,
            token_pieces(st.cursor, text, width, origin.len()),
            colors,
            width,
            origin,
            owed,
        ),
    decreases text.len(), (if room(st, width, origin.len()) == 0 { 1nat } else { 0nat }),
{
    let fits = room(st, width, origin.len());
    let pieces = token_pieces(st.cursor, text, width, origin.len());
    if text.len() <= fits {
        assert(pieces == seq![text]);
        assert(pieces.drop_first() =~= Seq::<Seq<char>>::empty());
        assert(pieces_joined(pieces.drop_first()) =~= Seq::<char>::empty());
        assert(pieces_joined(pieces) =~= text);
    } else {
        let head = text.take(fits as int);
        let tail = text.skip(fits as int);
        let next = line_broken(st.write(head, colors), width, origin, owed);
        lemma_line_broken(st.write(head, colors), width, origin, owed);
        lemma_token_wrap_lossless(next, tail, colors, width, origin, false);
        let rest = token_pieces(CONTENT_COLUMN as nat, tail, width, origin.len());
        assert(pieces == seq![head] + rest);
        assert(pieces.drop_first() =~= rest);
        assert(pieces[0] == head);
        assert(pieces_joined(pieces) =~= head + tail);
        assert(head + tail =~= text);
    }
}

} // verus!
