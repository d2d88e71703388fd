//! A JSON value as a document: the text that its tokens spell, and what
//! that text tells of the value.
use vstd::prelude::*;
use crate::clock::is_digit;
use crate::escape::{lemma_string_literal_unique, string_literal};
use crate::json::{
    operator_text, KindView,
    boolean_text, boolean_token, items_tokens, member_head, members_tokens, null_text,
    null_token, number_token, operator_token, string_token, tree_tokens, JsonTree,
    Operator, TokenView,
};

verus! {

/// The texts of a run of tokens, one after the other.
pub open spec fn contents_joined(tokens: Seq<TokenView>) -> Seq<char>
    decreases tokens.len(),
{
    if tokens.len() == 0 {
        Seq::empty()
    } else {
        contents_joined(tokens.drop_last()) + tokens.last().content
    }
}

/// A value as a JSON document without white space. Strings stand as their
/// string literals, and numbers as they are written.
pub open spec fn compact_text(tree: JsonTree) -> Seq<char>
    decreases tree,
{
    match tree {
        JsonTree::Null => null_text(),
        JsonTree::Bool(b) => boolean_text(b),
        JsonTree::Number(n) => n,
        JsonTree::Text(s) => string_literal(s),
        JsonTree::Array(items) => seq!['['] + items_text(items) + seq![']'],
        JsonTree::Object(members) => seq!['{'] + members_text(members) + seq!['}'],
    }
}

/// The items of an array as text, with a comma between each two.
pub open spec fn items_text(items: Seq<JsonTree>) -> Seq<char>
    decreases items,
{
    if items.len() == 0 {
        Seq::empty()
    } else if items.len() == 1 {
        compact_text(items.last())
    } else {
        items_text(items.drop_last()) + seq![','] + compact_text(items.last())
    }
}

/// The members of an object as text, with a comma between each two.
pub open spec fn members_text(members: Seq<(Seq<char>, JsonTree)>) -> Seq<char>
    decreases members,
{
    if members.len() == 0 {
        Seq::empty()
    } else if members.len() == 1 {
        string_literal(members.last().0) + seq![':'] + compact_text(members.last().1)
    } else {
        members_text(members.drop_last()) + seq![','] + string_literal(members.last().0) + seq![':']
            + compact_text(members.last().1)
    }
}

/// The texts of two runs of tokens, joined, are the text of both.
pub proof fn lemma_contents_joined_concat(a: Seq<TokenView>, b: Seq<TokenView>)
    ensures
        contents_joined(a + b) == contents_joined(a) + contents_joined(b),
    decreases b.len(),
{
    if b.len() == 0 {
        assert(a + b =~= a);
        assert(contents_joined(a) + contents_joined(b) =~= contents_joined(a));
    } else {
        lemma_contents_joined_concat(a, b.drop_last());
        assert((a + b).drop_last() =~= a + b.drop_last());
        assert((a + b).last() == b.last());
        assert(contents_joined(a + b) =~= contents_joined(a) + contents_joined(b));
    }
}

/// The text of a single token.
pub proof fn lemma_contents_joined_one(token: TokenView)
    ensures
        contents_joined(seq![token]) == token.content,
{
    let one = seq![token];
    assert(one.drop_last() =~= Seq::<TokenView>::empty());
    assert(contents_joined(one.drop_last()) =~= Seq::<char>::empty());
    assert(contents_joined(one) =~= token.content);
}

/// The tokens of a value, their texts joined in order, spell the value as a
/// JSON document: the members of an object in their order, the numbers as
/// they are written.
pub proof fn lemma_tokens_spell_document(tree: JsonTree)
    ensures
        contents_joined(tree_tokens(tree)) == compact_text(tree),
    decreases tree, 0nat,
{
    match tree {
        JsonTree::Null => {
            lemma_contents_joined_one(null_token());
        },
        JsonTree::Bool(b) => {
            lemma_contents_joined_one(boolean_token(b));
        },
        JsonTree::Number(n) => {
            lemma_contents_joined_one(number_token(n));
        },
        JsonTree::Text(s) => {
            lemma_contents_joined_one(string_token(s));
        },
        JsonTree::Array(items) => {
            let open = seq![operator_token(Operator::JsonLBracket)];
            let close = seq![operator_token(Operator::JsonRBracket)];
            lemma_items_spell(items);
            lemma_contents_joined_one(operator_token(Operator::JsonLBracket));
            lemma_contents_joined_one(operator_token(Operator::JsonRBracket));
            lemma_contents_joined_concat(open, items_tokens(items));
            lemma_contents_joined_concat(open + items_tokens(items), close);
        },
        JsonTree::Object(members) => {
            let open = seq![operator_token(Operator::JsonLBrace)];
            let close = seq![operator_token(Operator::JsonRBrace)];
            lemma_members_spell(members);
            lemma_contents_joined_one(operator_token(Operator::JsonLBrace));
            lemma_contents_joined_one(operator_token(Operator::JsonRBrace));
            lemma_contents_joined_concat(open, members_tokens(members));
            lemma_contents_joined_concat(open + members_tokens(members), close);
        },
    }
}

/// The tokens of the items of an array spell the items.
pub proof fn lemma_items_spell(items: Seq<JsonTree>)
    ensures
        contents_joined(items_tokens(items)) == items_text(items),
    decreases items, 1nat,
{
    if items.len() == 0 {
    } else if items.len() == 1 {
        lemma_tokens_spell_document(items.last());
    } else {
        let comma = seq![operator_token(Operator::JsonComma)];
        lemma_items_spell(items.drop_last());
        lemma_tokens_spell_document(items.last());
        lemma_contents_joined_one(operator_token(Operator::JsonComma));
        lemma_contents_joined_concat(items_tokens(items.drop_last()), comma);
        lemma_contents_joined_concat(
            items_tokens(items.drop_last()) + comma,
            tree_tokens(items.last()),
        );
    }
}

/// The tokens of the members of an object spell the members.
pub proof fn lemma_members_spell(members: Seq<(Seq<char>, JsonTree)>)
    ensures
        contents_joined(members_tokens(members)) == members_text(members),
    decreases members, 1nat,
{
    if members.len() > 0 {
        let key = members.last().0;
        let value = members.last().1;
        let head = member_head(key);
        lemma_tokens_spell_document(value);
        lemma_contents_joined_one(string_token(key));
        lemma_contents_joined_one(operator_token(Operator::JsonColon));
        assert(head =~= seq![string_token(key)] + seq![operator_token(Operator::JsonColon)]);
        lemma_contents_joined_concat(
            seq![string_token(key)],
            seq![operator_token(Operator::JsonColon)],
        );
        if members.len() == 1 {
            lemma_contents_joined_concat(head, tree_tokens(value));
        } else {
            let comma = seq![operator_token(Operator::JsonComma)];
            let before = members_tokens(members.drop_last());
            lemma_members_spell(members.drop_last());
            lemma_contents_joined_one(operator_token(Operator::JsonComma));
            lemma_contents_joined_concat(before, comma);
            lemma_contents_joined_concat(before + comma, head);
            lemma_contents_joined_concat(before + comma + head, tree_tokens(value));
            assert(contents_joined(members_tokens(members)) =~= members_text(members));
        }
    }
}

/// Whether a character can stand in a JSON number.
pub open spec fn is_number_char(c: char) -> bool {
    is_digit(c) || c == '-' || c == '+' || c == '.' || c == 'e' || c == 'E'
}

/// Whether a text is written with the characters of a JSON number, and
/// starts as one: with a digit or a minus sign.
pub open spec fn is_number_text(text: Seq<char>) -> bool {
    &&& text.len() > 0
    &&& is_digit(text[0]) || text[0] == '-'
    &&& forall|i: int| 0 <= i < text.len() ==> is_number_char(#[trigger] text[i])
}

/// Whether every number in a value is written as a JSON number.
pub open spec fn has_number_texts(tree: JsonTree) -> bool
    decreases tree,
{
    match tree {
        JsonTree::Null => true,
        JsonTree::Bool(_) => true,
        JsonTree::Number(n) => is_number_text(n),
        JsonTree::Text(_) => true,
        JsonTree::Array(items) => forall|i: int|
            0 <= i < items.len() ==> has_number_texts(#[trigger] items[i]),
        JsonTree::Object(members) => forall|i: int|
            0 <= i < members.len() ==> has_number_texts((#[trigger] members[i]).1),
    }
}

/// Whether a text can follow a value in a document: it is empty, or starts
/// with a comma or with a closing bracket or brace.
pub open spec fn ends_value(rest: Seq<char>) -> bool {
    rest.len() == 0 || rest[0] == ',' || rest[0] == ']' || rest[0] == '}'
}

/// Two texts of one length that start the same text are the same, and so
/// is what follows them.
proof fn lemma_same_length_split(x: Seq<char>, rx: Seq<char>, y: Seq<char>, ry: Seq<char>)
    requires
        x + rx == y + ry,
        x.len() == y.len(),
    ensures
        x == y,
        rx == ry,
{
    assert(x =~= (x + rx).take(x.len() as int));
    assert(y =~= (y + ry).take(y.len() as int));
    assert(rx =~= (x + rx).skip(x.len() as int));
    assert(ry =~= (y + ry).skip(y.len() as int));
}

/// Two texts that start the same text, and that both end where a character
/// of another kind follows, have one length.
proof fn lemma_stop_length(
    x: Seq<char>,
    rx: Seq<char>,
    y: Seq<char>,
    ry: Seq<char>,
    stop: spec_fn(char) -> bool,
)
    requires
        x + rx == y + ry,
        forall|i: int| 0 <= i < x.len() ==> !stop(#[trigger] x[i]),
        forall|i: int| 0 <= i < y.len() ==> !stop(#[trigger] y[i]),
        rx.len() == 0 || stop(rx[0]),
        ry.len() == 0 || stop(ry[0]),
    ensures
        x.len() == y.len(),
{
    let whole = x + rx;
    assert(whole.len() == x.len() + rx.len());
    assert(whole.len() == y.len() + ry.len());
    if x.len() < y.len() {
        assert(whole[x.len() as int] == rx[0]);
        assert(whole[x.len() as int] == y[x.len() as int]);
    } else if y.len() < x.len() {
        assert(whole[y.len() as int] == ry[0]);
        assert(whole[y.len() as int] == x[y.len() as int]);
    }
}

/// How the text of a value starts: each kind of value with characters of
/// its own.
pub proof fn lemma_first_char(tree: JsonTree)
    requires
        has_number_texts(tree),
    ensures
        compact_text(tree).len() > 0,
        !ends_value(compact_text(tree)),
        match tree {
            JsonTree::Null => compact_text(tree)[0] == 'n',
            JsonTree::Bool(b) => compact_text(tree)[0] == (if b {
                't'
            } else {
                'f'
            }),
            JsonTree::Number(_) => is_digit(compact_text(tree)[0]) || compact_text(tree)[0] == '-',
            JsonTree::Text(_) => compact_text(tree)[0] == '"',
            JsonTree::Array(_) => compact_text(tree)[0] == '[',
            JsonTree::Object(_) => compact_text(tree)[0] == '{',
        },
{
}

/// The items of an array as text, read from the front: the first item,
/// and, where more follow, a comma and the others.
proof fn lemma_items_text_front(items: Seq<JsonTree>)
    requires
        items.len() >= 2,
    ensures
        items_text(items) == compact_text(items[0]) + seq![','] + items_text(items.drop_first()),
    decreases items.len(),
{
    let init = items.drop_last();
    let tail = items.drop_first();
    if items.len() == 2 {
        assert(init.last() == items[0]);
        assert(tail.last() == items[1]);
        assert(items_text(init) == compact_text(items[0]));
        assert(items_text(tail) == compact_text(items[1]));
        assert(items_text(items) =~= compact_text(items[0]) + seq![','] + items_text(tail));
    } else {
        lemma_items_text_front(init);
        assert(init.drop_first() =~= tail.drop_last());
        assert(init[0] == items[0]);
        assert(tail.last() == items.last());
        assert(items_text(items) =~= compact_text(items[0]) + seq![','] + items_text(tail));
    }
}

/// One member of an object as text.
pub open spec fn member_text(member: (Seq<char>, JsonTree)) -> Seq<char> {
    string_literal(member.0) + seq![':'] + compact_text(member.1)
}

/// The members of an object as text, read from the front.
proof fn lemma_members_text_front(members: Seq<(Seq<char>, JsonTree)>)
    requires
        members.len() >= 1,
    ensures
        members.len() == 1 ==> members_text(members) == member_text(members[0]),
        members.len() >= 2 ==> members_text(members) == member_text(members[0]) + seq![',']
            + members_text(members.drop_first()),
    decreases members.len(),
{
    let init = members.drop_last();
    let tail = members.drop_first();
    if members.len() == 1 {
    } else if members.len() == 2 {
        assert(init.last() == members[0]);
        assert(tail.last() == members[1]);
        assert(members_text(init) == member_text(members[0]));
        assert(members_text(tail) == member_text(members[1]));
        assert(members_text(members) =~= member_text(members[0]) + seq![','] + members_text(tail));
    } else {
        lemma_members_text_front(init);
        assert(init.drop_first() =~= tail.drop_last());
        assert(init[0] == members[0]);
        assert(tail.last() == members.last());
        assert(members_text(members) =~= member_text(members[0]) + seq![','] + members_text(tail));
    }
}

/// A value can be read off the start of a text in one way only: two
/// values whose documents start the same text, each followed by what can
/// follow a value, are the same value, followed by the same.
pub proof fn lemma_value_unique(a: JsonTree, ra: Seq<char>, b: JsonTree, rb: Seq<char>)
    requires
        has_number_texts(a),
        has_number_texts(b),
        ends_value(ra),
        ends_value(rb),
        compact_text(a) + ra == compact_text(b) + rb,
    ensures
        a == b,
        ra == rb,
    decreases a,
{
    let ta = compact_text(a);
    let tb = compact_text(b);
    lemma_first_char(a);
    lemma_first_char(b);
    assert((ta + ra)[0] == ta[0]);
    assert((tb + rb)[0] == tb[0]);
    match a {
        JsonTree::Null => {
            assert(b is Null);
            lemma_same_length_split(ta, ra, tb, rb);
        },
        JsonTree::Bool(x) => {
            assert(b is Bool);
            assert(b->Bool_0 == x);
            lemma_same_length_split(ta, ra, tb, rb);
        },
        JsonTree::Number(n) => {
            assert(b is Number);
            let m = b->Number_0;
            let stop = |c: char| !is_number_char(c);
            lemma_stop_length(n, ra, m, rb, stop);
            lemma_same_length_split(n, ra, m, rb);
        },
        JsonTree::Text(s) => {
            assert(b is Text);
            lemma_string_literal_unique(s, ra, b->Text_0, rb);
        },
        JsonTree::Array(xs) => {
            assert(b is Array);
            let ys = b->Array_0;
            let close_a = seq![']'] + ra;
            let close_b = seq![']'] + rb;
            assert((ta + ra).skip(1) =~= items_text(xs) + close_a);
            assert((tb + rb).skip(1) =~= items_text(ys) + close_b);
            lemma_items_unique(xs, close_a, ys, close_b);
            assert(ra =~= close_a.skip(1));
            assert(rb =~= close_b.skip(1));
        },
        JsonTree::Object(xs) => {
            assert(b is Object);
            let ys = b->Object_0;
            let close_a = seq!['}'] + ra;
            let close_b = seq!['}'] + rb;
            assert((ta + ra).skip(1) =~= members_text(xs) + close_a);
            assert((tb + rb).skip(1) =~= members_text(ys) + close_b);
            lemma_members_unique(xs, close_a, ys, close_b);
            assert(ra =~= close_a.skip(1));
            assert(rb =~= close_b.skip(1));
        },
    }
}

/// What stands after the first of some items: nothing where it is the only
/// one, else a comma and the others.
spec fn items_after_first(items: Seq<JsonTree>) -> Seq<char> {
    if items.len() >= 2 {
        seq![','] + items_text(items.drop_first())
    } else {
        Seq::empty()
    }
}

/// The items of an array can be read off a text in one way only, up to the
/// bracket that closes the array.
proof fn lemma_items_unique(xs: Seq<JsonTree>, rx: Seq<char>, ys: Seq<JsonTree>, ry: Seq<char>)
    requires
        forall|i: int| 0 <= i < xs.len() ==> has_number_texts(#[trigger] xs[i]),
        forall|i: int| 0 <= i < ys.len() ==> has_number_texts(#[trigger] ys[i]),
        rx.len() > 0 && rx[0] == ']',
        ry.len() > 0 && ry[0] == ']',
        items_text(xs) + rx == items_text(ys) + ry,
    ensures
        xs == ys,
        rx == ry,
    decreases xs,
{
    let tx = items_text(xs);
    let ty = items_text(ys);
    if xs.len() > 0 {
        lemma_first_char(xs[0]);
        if xs.len() >= 2 {
            lemma_items_text_front(xs);
        }
        assert(tx =~= compact_text(xs[0]) + items_after_first(xs));
        assert((tx + rx)[0] == compact_text(xs[0])[0]);
    } else {
        assert((tx + rx)[0] == ']');
    }
    if ys.len() > 0 {
        lemma_first_char(ys[0]);
        if ys.len() >= 2 {
            lemma_items_text_front(ys);
        }
        assert(ty =~= compact_text(ys[0]) + items_after_first(ys));
        assert((ty + ry)[0] == compact_text(ys[0])[0]);
    } else {
        assert((ty + ry)[0] == ']');
    }
    if xs.len() == 0 {
        assert(ys.len() == 0);
        assert(xs =~= ys);
        assert(tx + rx =~= rx);
        assert(ty + ry =~= ry);
    } else {
        assert(ys.len() > 0);
        let more_x = items_after_first(xs) + rx;
        let more_y = items_after_first(ys) + ry;
        assert(tx + rx =~= compact_text(xs[0]) + more_x);
        assert(ty + ry =~= compact_text(ys[0]) + more_y);
        assert(more_x[0] == ',' || more_x[0] == ']');
        assert(more_y[0] == ',' || more_y[0] == ']');
        lemma_value_unique(xs[0], more_x, ys[0], more_y);
        if xs.len() == 1 {
            assert(more_x =~= rx);
            assert(ys.len() == 1);
            assert(more_y =~= ry);
            assert(xs =~= ys);
        } else {
            assert(more_x[0] == ',');
            assert(ys.len() >= 2);
            let dx = xs.drop_first();
            let dy = ys.drop_first();
            assert(more_x.skip(1) =~= items_text(dx) + rx);
            assert(more_y.skip(1) =~= items_text(dy) + ry);
            assert forall|i: int| 0 <= i < dx.len() implies has_number_texts(#[trigger] dx[i]) by {
                assert(dx[i] == xs[i + 1]);
            }
            assert forall|i: int| 0 <= i < dy.len() implies has_number_texts(#[trigger] dy[i]) by {
                assert(dy[i] == ys[i + 1]);
            }
            lemma_items_unique(dx, rx, dy, ry);
            assert(xs =~= seq![xs[0]] + dx);
            assert(ys =~= seq![ys[0]] + dy);
        }
    }
}

/// What stands after the first of some members: nothing where it is the
/// only one, else a comma and the others.
spec fn members_after_first(members: Seq<(Seq<char>, JsonTree)>) -> Seq<char> {
    if members.len() >= 2 {
        seq![','] + members_text(members.drop_first())
    } else {
        Seq::empty()
    }
}

/// The text of some members and of what follows them, read from the front:
/// the first key, a colon, the first value, and the rest.
proof fn lemma_members_split(members: Seq<(Seq<char>, JsonTree)>, rest: Seq<char>)
    requires
        members.len() > 0,
    ensures
        members_text(members) + rest == string_literal(members[0].0) + (seq![':'] + (compact_text(
            members[0].1,
        ) + (members_after_first(members) + rest))),
        (members_text(members) + rest)[0] == '"',
        members.len() == 1 ==> members_after_first(members) + rest == rest,
        members.len() >= 2 ==> (members_after_first(members) + rest)[0] == ',' && (
        members_after_first(members) + rest).skip(1) == members_text(members.drop_first()) + rest,
{
    lemma_members_text_front(members);
    let more = members_after_first(members);
    assert(members_text(members) =~= member_text(members[0]) + more);
    assert(members_text(members) + rest =~= string_literal(members[0].0) + (seq![':'] + (compact_text(
        members[0].1,
    ) + (more + rest))));
    if members.len() == 1 {
        assert(more + rest =~= rest);
    } else {
        assert((more + rest).skip(1) =~= members_text(members.drop_first()) + rest);
    }
}

/// A key and its colon can be read off a text in one way only.
proof fn lemma_key_unique(kx: Seq<char>, vx: Seq<char>, ky: Seq<char>, vy: Seq<char>)
    requires
        string_literal(kx) + (seq![':'] + vx) == string_literal(ky) + (seq![':'] + vy),
    ensures
        kx == ky,
        vx == vy,
{
    lemma_string_literal_unique(kx, seq![':'] + vx, ky, seq![':'] + vy);
    assert(vx =~= (seq![':'] + vx).skip(1));
    assert(vy =~= (seq![':'] + vy).skip(1));
}

/// The members of an object can be read off a text in one way only, up to
/// the brace that closes the object.
proof fn lemma_members_unique(
    xs: Seq<(Seq<char>, JsonTree)>,
    rx: Seq<char>,
    ys: Seq<(Seq<char>, JsonTree)>,
    ry: Seq<char>,
)
    requires
        forall|i: int|
            0 <= i < xs.len() ==> has_number_texts((#[trigger] xs[i]).1),
        forall|i: int|
            0 <= i < ys.len() ==> has_number_texts((#[trigger] ys[i]).1),
        rx.len() > 0 && rx[0] == '}',
        ry.len() > 0 && ry[0] == '}',
        members_text(xs) + rx == members_text(ys) + ry,
    ensures
        xs == ys,
        rx == ry,
    decreases xs,
{
    let tx = members_text(xs);
    let ty = members_text(ys);
    if xs.len() > 0 {
        lemma_members_split(xs, rx);
    } else {
        assert(tx + rx =~= rx);
    }
    if ys.len() > 0 {
        lemma_members_split(ys, ry);
    } else {
        assert(ty + ry =~= ry);
    }
    if xs.len() == 0 {
        assert(ys.len() == 0);
        assert(xs =~= ys);
    } else {
        assert(ys.len() > 0);
        let more_x = members_after_first(xs) + rx;
        let more_y = members_after_first(ys) + ry;
        assert(xs[0].0 == ys[0].0 && compact_text(xs[0].1) + more_x == compact_text(ys[0].1)
            + more_y) by {
            lemma_key_unique(
                xs[0].0,
                compact_text(xs[0].1) + more_x,
                ys[0].0,
                compact_text(ys[0].1) + more_y,
            );
        }
        assert(ends_value(more_x));
        assert(ends_value(more_y));
        lemma_value_unique(xs[0].1, more_x, ys[0].1, more_y);
        assert(xs[0] == ys[0]);
        if xs.len() == 1 {
            assert(ys.len() == 1);
            assert(xs =~= ys);
        } else {
            assert(ys.len() >= 2);
            let dx = xs.drop_first();
            let dy = ys.drop_first();
            assert forall|i: int| 0 <= i < dx.len() implies has_number_texts(
                (#[trigger] dx[i]).1,
            ) by {
                assert(dx[i] == xs[i + 1]);
            }
            assert forall|i: int| 0 <= i < dy.len() implies has_number_texts(
                (#[trigger] dy[i]).1,
            ) by {
                assert(dy[i] == ys[i + 1]);
            }
            lemma_members_unique(dx, rx, dy, ry);
            assert(xs =~= seq![xs[0]] + dx);
            assert(ys =~= seq![ys[0]] + dy);
        }
    }
}

/// The document that the tokens of a value spell tells the whole value:
/// two values whose numbers are written as JSON numbers and whose tokens
/// spell the same text are the same value, with the same strings, the same
/// members in the same order and the same numbers written the same way.
pub proof fn lemma_document_round_trip(a: JsonTree, b: JsonTree)
    requires
        has_number_texts(a),
        has_number_texts(b),
        contents_joined(tree_tokens(a)) == contents_joined(tree_tokens(b)),
    ensures
        a == b,
{
    lemma_tokens_spell_document(a);
    lemma_tokens_spell_document(b);
    lemma_value_unique(a, Seq::empty(), b, Seq::empty());
}

/// The text that is printed for a token of a kind: the kind fixes it.
pub open spec fn kind_text(kind: KindView) -> Seq<char> {
    match kind {
        KindView::Operator(op) => operator_text(op),
        KindView::StringLiteral(text) => string_literal(text),
        KindView::NumberLiteral(text) => text,
        KindView::BooleanLiteral(value) => boolean_text(value),
        KindView::NullLiteral => null_text(),
    }
}

/// Whether each token of a run has the text of its kind.
pub open spec fn texts_by_kind(tokens: Seq<TokenView>) -> bool {
    forall|i: int| 0 <= i < tokens.len() ==> (#[trigger] tokens[i]).content == kind_text(tokens[i].kind)
}

/// Two runs of tokens that have the texts of their kinds make one that has.
proof fn lemma_texts_by_kind_concat(a: Seq<TokenView>, b: Seq<TokenView>)
    requires
        texts_by_kind(a),
        texts_by_kind(b),
    ensures
        texts_by_kind(a + b),
{
    assert forall|i: int| 0 <= i < (a + b).len() implies (#[trigger] (a + b)[i]).content
        == kind_text((a + b)[i].kind) by {
        if i < a.len() {
            assert((a + b)[i] == a[i]);
        } else {
            assert((a + b)[i] == b[i - a.len()]);
        }
    }
}

/// A value has at least one token, and the text of each of its tokens is
/// fixed by the token's kind: a brace, a bracket, a colon or a comma for an
/// operator, the JSON string literal for a string, the number as it is
/// written, `true` or `false`, `null`.
pub proof fn lemma_tokens_by_kind(tree: JsonTree)
    ensures
        tree_tokens(tree).len() > 0,
        texts_by_kind(tree_tokens(tree)),
    decreases tree, 0nat,
{
    match tree {
        JsonTree::Array(items) => {
            let open = seq![operator_token(Operator::JsonLBracket)];
            let close = seq![operator_token(Operator::JsonRBracket)];
            lemma_items_by_kind(items);
            lemma_texts_by_kind_concat(open, items_tokens(items));
            lemma_texts_by_kind_concat(open + items_tokens(items), close);
        },
        JsonTree::Object(members) => {
            let open = seq![operator_token(Operator::JsonLBrace)];
            let close = seq![operator_token(Operator::JsonRBrace)];
            lemma_members_by_kind(members);
            lemma_texts_by_kind_concat(open, members_tokens(members));
            lemma_texts_by_kind_concat(open + members_tokens(members), close);
        },
        _ => {},
    }
}

/// The tokens of the items of an array have the texts of their kinds.
proof fn lemma_items_by_kind(items: Seq<JsonTree>)
    ensures
        texts_by_kind(items_tokens(items)),
    decreases items, 1nat,
{
    if items.len() == 0 {
    } else if items.len() == 1 {
        lemma_tokens_by_kind(items.last());
    } else {
        let comma = seq![operator_token(Operator::JsonComma)];
        lemma_items_by_kind(items.drop_last());
        lemma_tokens_by_kind(items.last());
        lemma_texts_by_kind_concat(items_tokens(items.drop_last()), comma);
        lemma_texts_by_kind_concat(
            items_tokens(items.drop_last()) + comma,
            tree_tokens(items.last()),
        );
    }
}

/// The tokens of the members of an object have the texts of their kinds.
proof fn lemma_members_by_kind(members: Seq<(Seq<char>, JsonTree)>)
    ensures
        texts_by_kind(members_tokens(members)),
    decreases members, 1nat,
{
    if members.len() > 0 {
        let head = member_head(members.last().0);
        lemma_tokens_by_kind(members.last().1);
        if members.len() == 1 {
            lemma_texts_by_kind_concat(head, tree_tokens(members.last().1));
        } else {
            let comma = seq![operator_token(Operator::JsonComma)];
            let before = members_tokens(members.drop_last());
            lemma_members_by_kind(members.drop_last());
            lemma_texts_by_kind_concat(before, comma);
            lemma_texts_by_kind_concat(before + comma, head);
            lemma_texts_by_kind_concat(before + comma + head, tree_tokens(members.last().1));
        }
    }
}

} // verus!
