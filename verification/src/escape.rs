//! JSON string literals: a string between quotes, with what cannot stand
//! there as it is escaped.
use vstd::prelude::*;
use vstd::string::StringExecFns;

verus! {

/// Appends a character to a string.
///
/// Specifies std's `String::push`, of which the documentation says that it
/// appends the given character to the end of the string.
pub assume_specification[ std::string::String::push ](s: &mut std::string::String, c: char)
    ensures
        final(s)@ == old(s)@.push(c),
;

/// The lower-case hexadecimal digit of a number below 16.
pub open spec fn hex_digit(n: nat) -> char {
    if n == 0 {
        '0'
    } else if n == 1 {
        '1'
    } else if n == 2 {
        '2'
    } else if n == 3 {
        '3'
    } else if n == 4 {
        '4'
    } else if n == 5 {
        '5'
    } else if n == 6 {
        '6'
    } else if n == 7 {
        '7'
    } else if n == 8 {
        '8'
    } else if n == 9 {
        '9'
    } else if n == 10 {
        'a'
    } else if n == 11 {
        'b'
    } else if n == 12 {
        'c'
    } else if n == 13 {
        'd'
    } else if n == 14 {
        'e'
    } else {
        'f'
    }
}

/// Whether a character cannot stand in a JSON string as it is: a quote, a
/// backslash, or a control character below U+0020.
pub open spec fn needs_escape(c: char) -> bool {
    c == '"' || c == '\\' || c < ' '
}

/// A character as it stands in a JSON string literal. A quote and a
/// backslash get a backslash before them; backspace, tab, line feed, form
/// feed and carriage return become `\b`, `\t`, `\n`, `\f` and `\r`; any other
/// control character below U+0020 becomes `\u00` and its two hexadecimal
/// digits; every other character stands for itself.
pub open spec fn escaped_char(c: char) -> Seq<char> {
    if c == '"' {
        seq!['\\', '"']
    } else if c == '\\' {
        seq!['\\', '\\']
    } else if c == '\x08' {
        seq!['\\', 'b']
    } else if c == '\t' {
        seq!['\\', 't']
    } else if c == '\n' {
        seq!['\\', 'n']
    } else if c == '\x0c' {
        seq!['\\', 'f']
    } else if c == '\r' {
        seq!['\\', 'r']
    } else if ' ' > c {
        seq!['\\', 'u', '0', '0', hex_digit((c as nat) / 16), hex_digit((c as nat) % 16)]
    } else {
        seq![c]
    }
}

/// A text with each of its characters as it stands in a string literal.
pub open spec fn escaped(text: Seq<char>) -> Seq<char>
    decreases text.len(),
{
    if text.len() == 0 {
        Seq::empty()
    } else {
        escaped_char(text[0]) + escaped(text.drop_first())
    }
}

/// The JSON string literal of a text: the escaped text between double
/// quotes.
pub open spec fn string_literal(text: Seq<char>) -> Seq<char> {
    seq!['"'] + escaped(text) + seq!['"']
}

/// Escaping goes through concatenation.
pub proof fn lemma_escaped_concat(a: Seq<char>, b: Seq<char>)
    ensures
        escaped(a + b) == escaped(a) + escaped(b),
    decreases a.len(),
{
    if a.len() == 0 {
        assert(a + b =~= b);
        assert(escaped(a) + escaped(b) =~= escaped(b));
    } else {
        lemma_escaped_concat(a.drop_first(), b);
        assert((a + b).drop_first() =~= a.drop_first() + b);
        assert(escaped(a + b) =~= escaped(a) + escaped(b));
    }
}

/// Escaping a text with one more character at its end.
pub proof fn lemma_escaped_push(text: Seq<char>, c: char)
    ensures
        escaped(text.push(c)) == escaped(text) + escaped_char(c),
{
    let one = seq![c];
    lemma_escaped_concat(text, one);
    assert(text.push(c) =~= text + one);
    assert(one.drop_first() =~= Seq::<char>::empty());
    assert(escaped(one.drop_first()) =~= Seq::<char>::empty());
    assert(escaped(one) =~= escaped_char(c));
}

/// How an escaped character starts: never with a quote, and with a
/// backslash exactly where it had to be escaped.
pub proof fn lemma_escaped_char_start(c: char)
    ensures
        escaped_char(c).len() >= 1,
        escaped_char(c)[0] != '"',
        needs_escape(c) <==> escaped_char(c)[0] == '\\',
        !needs_escape(c) ==> escaped_char(c) == seq![c],
        needs_escape(c) ==> escaped_char(c).len() == 2 || escaped_char(c).len() == 6,
{
}

/// An escaped character can be read off the start of a text in one way
/// only: two characters whose escaped forms start the same text are the
/// same character, followed by the same.
pub proof fn lemma_escaped_char_unique(c: char, rc: Seq<char>, d: char, rd: Seq<char>)
    requires
        escaped_char(c) + rc == escaped_char(d) + rd,
    ensures
        c == d,
        rc == rd,
{
    let ec = escaped_char(c);
    let ed = escaped_char(d);
    let whole = ec + rc;
    lemma_escaped_char_start(c);
    lemma_escaped_char_start(d);
    assert(whole[0] == ec[0]);
    assert(whole[0] == ed[0]);
    if needs_escape(c) {
        assert(needs_escape(d));
        assert(whole[1] == ec[1]);
        assert(whole[1] == ed[1]);
        if ec[1] == 'u' {
            assert(ec.len() == 6 && ed.len() == 6);
            assert(whole[4] == ec[4] && whole[4] == ed[4]);
            assert(whole[5] == ec[5] && whole[5] == ed[5]);
            let n = c as nat;
            let m = d as nat;
            assert(n < 32 && m < 32);
            assert(hex_digit(n / 16) == hex_digit(m / 16));
            assert(hex_digit(n % 16) == hex_digit(m % 16));
            assert(n / 16 == m / 16);
            assert(n % 16 == m % 16);
            assert(n == m);
            assert(c == d);
        } else {
            assert(ec.len() == 2 && ed.len() == 2);
            assert(c == d);
        }
    } else {
        assert(!needs_escape(d));
        assert(c == d);
    }
    assert(rc =~= whole.skip(ec.len() as int));
    assert(rd =~= (ed + rd).skip(ed.len() as int));
}

/// An escaped text ends at the first quote: two texts whose escaped forms,
/// each followed by a quote, start the same text are the same text, and so
/// is what follows them.
pub proof fn lemma_escaped_unique(s: Seq<char>, rs: Seq<char>, t: Seq<char>, rt: Seq<char>)
    requires
        rs.len() > 0 && rs[0] == '"',
        rt.len() > 0 && rt[0] == '"',
        escaped(s) + rs == escaped(t) + rt,
    ensures
        s == t,
        rs == rt,
    decreases s.len(),
{
    let es = escaped(s);
    let et = escaped(t);
    if s.len() > 0 {
        lemma_escaped_char_start(s[0]);
        assert((es + rs)[0] == escaped_char(s[0])[0]);
    } else {
        assert(es + rs =~= rs);
    }
    if t.len() > 0 {
        lemma_escaped_char_start(t[0]);
        assert((et + rt)[0] == escaped_char(t[0])[0]);
    } else {
        assert(et + rt =~= rt);
    }
    if s.len() == 0 {
        assert(t.len() == 0);
        assert(s =~= t);
    } else {
        assert(t.len() > 0);
        let more_s = escaped(s.drop_first()) + rs;
        let more_t = escaped(t.drop_first()) + rt;
        assert(es + rs =~= escaped_char(s[0]) + more_s);
        assert(et + rt =~= escaped_char(t[0]) + more_t);
        lemma_escaped_char_unique(s[0], more_s, t[0], more_t);
        lemma_escaped_unique(s.drop_first(), rs, t.drop_first(), rt);
        assert(s =~= seq![s[0]] + s.drop_first());
        assert(t =~= seq![t[0]] + t.drop_first());
    }
}

/// A string literal can be read off the start of a text in one way only.
pub proof fn lemma_string_literal_unique(s: Seq<char>, rs: Seq<char>, t: Seq<char>, rt: Seq<char>)
    requires
        string_literal(s) + rs == string_literal(t) + rt,
    ensures
        s == t,
        rs == rt,
{
    let quote = seq!['"'];
    let after_s = quote + rs;
    let after_t = quote + rt;
    assert((string_literal(s) + rs).skip(1) =~= escaped(s) + after_s);
    assert((string_literal(t) + rt).skip(1) =~= escaped(t) + after_t);
    lemma_escaped_unique(s, after_s, t, after_t);
    assert(rs =~= after_s.skip(1));
    assert(rt =~= after_t.skip(1));
}

/// The hexadecimal digit of `n`.
fn hex_digit_of(n: u32) -> (digit: char)
    requires
        n < 16,
    ensures
        digit == hex_digit(n as nat),
{
    if n == 0 {
        '0'
    } else if n == 1 {
        '1'
    } else if n == 2 {
        '2'
    } else if n == 3 {
        '3'
    } else if n == 4 {
        '4'
    } else if n == 5 {
        '5'
    } else if n == 6 {
        '6'
    } else if n == 7 {
        '7'
    } else if n == 8 {
        '8'
    } else if n == 9 {
        '9'
    } else if n == 10 {
        'a'
    } else if n == 11 {
        'b'
    } else if n == 12 {
        'c'
    } else if n == 13 {
        'd'
    } else if n == 14 {
        'e'
    } else {
        'f'
    }
}

/// Appends `c` to `out` as it stands in a string literal.
pub fn push_escaped(out: &mut String, c: char)
    ensures
        final(out)@ == old(out)@ + escaped_char(c),
{
    if c == '"' {
        out.push('\\');
        out.push('"');
    } else if c == '\\' {
        out.push('\\');
        out.push('\\');
    } else if c == '\x08' {
        out.push('\\');
        out.push('b');
    } else if c == '\t' {
        out.push('\\');
        out.push('t');
    } else if c == '\n' {
        out.push('\\');
        out.push('n');
    } else if c == '\x0c' {
        out.push('\\');
        out.push('f');
    } else if c == '\r' {
        out.push('\\');
        out.push('r');
    } else if ' ' > c {
        let code: u32 = c as u32;
        out.push('\\');
        out.push('u');
        out.push('0');
        out.push('0');
        out.push(hex_digit_of(code / 16));
        out.push(hex_digit_of(code % 16));
    } else {
        out.push(c);
    }
    assert(out@ =~= old(out)@ + escaped_char(c));
}

/// The JSON string literal of `text`.
pub fn string_literal_of(text: &str) -> (literal: String)
    ensures
        literal@ == string_literal(text@),
{
    let mut literal = String::new();
    literal.push('"');
    for c in it: text.chars()
        invariant
            it.seq() == text@,
            literal@ == seq!['"'] + escaped(text@.take(it.index())),
    {
        proof {
            lemma_escaped_push(text@.take(it.index()), c);
            assert(text@.take(it.index() + 1) =~= text@.take(it.index()).push(c));
        }
        push_escaped(&mut literal, c);
        assert(literal@ =~= seq!['"'] + escaped(text@.take(it.index() + 1)));
    }
    assert(text@.take(text@.len() as int) =~= text@);
    literal.push('"');
    assert(literal@ =~= string_literal(text@));
    literal
}

} // verus!
