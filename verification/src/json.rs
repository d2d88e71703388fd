//! JSON values, their tokens, and the order in which the tokens are printed.
use vstd::prelude::*;
use vstd::string::StringExecFns;
use crate::escape::{string_literal, string_literal_of};
use crate::document::{compact_text, contents_joined, lemma_tokens_spell_document};

verus! {

/// The structural tokens of a JSON document.
#[derive(Clone, Copy, Debug, PartialEq, Eq, Structural)]
pub enum Operator {
    JsonLBrace,
    JsonRBrace,
    JsonLBracket,
    JsonRBracket,
    JsonColon,
    JsonComma,
}

/// A literal of a JSON document. A string is held without its quotes, a
/// number as the text in which it is written.
#[derive(Clone, Debug)]
pub enum Literal {
    StringLiteral(String),
    NumberLiteral(String),
    BooleanLiteral(bool),
    NullLiteral,
}

/// What a token is: a structural operator or a literal.
#[derive(Clone, Debug)]
pub enum TokenKind {
    Operator(Operator),
    Literal(Literal),
}

/// One token of a JSON document: what it is, and the text that is printed
/// for it.
#[derive(Clone, Debug)]
pub struct JsonToken {
    pub kind: TokenKind,
    pub content: String,
}

/// What a [`TokenKind`] stands for.
pub enum KindView {
    Operator(Operator),
    StringLiteral(Seq<char>),
    NumberLiteral(Seq<char>),
    BooleanLiteral(bool),
    NullLiteral,
}

/// What a [`JsonToken`] stands for.
pub struct TokenView {
    pub kind: KindView,
    pub content: Seq<char>,
}

impl View for TokenKind {
    type V = KindView;

    open spec fn view(&self) -> KindView {
        match self {
            TokenKind::Operator(o) => KindView::Operator(*o),
            TokenKind::Literal(Literal::StringLiteral(s)) => KindView::StringLiteral(s@),
            TokenKind::Literal(Literal::NumberLiteral(n)) => KindView::NumberLiteral(n@),
            TokenKind::Literal(Literal::BooleanLiteral(b)) => KindView::BooleanLiteral(*b),
            TokenKind::Literal(Literal::NullLiteral) => KindView::NullLiteral,
        }
    }
}

impl View for JsonToken {
    type V = TokenView;

    open spec fn view(&self) -> TokenView {
        TokenView { kind: self.kind@, content: self.content@ }
    }
}

/// The views of a run of tokens, in order.
pub open spec fn token_views(tokens: Seq<JsonToken>) -> Seq<TokenView> {
    tokens.map_values(|t: JsonToken| t@)
}

/// A JSON value. The members of an object are kept in the order in which
/// they were given; a number is kept as the text in which it is written.
#[derive(Debug)]
pub enum JsonValue {
    Null,
    Bool(bool),
    Number(String),
    String(String),
    Array(Vec<JsonValue>),
    Object(Vec<Member>),
}

/// One member of an object.
#[derive(Debug)]
pub struct Member {
    pub key: String,
    pub value: JsonValue,
}

/// What a [`JsonValue`] stands for.
pub enum JsonTree {
    Null,
    Bool(bool),
    Number(Seq<char>),
    Text(Seq<char>),
    Array(Seq<JsonTree>),
    Object(Seq<(Seq<char>, JsonTree)>),
}

impl View for JsonValue {
    type V = JsonTree;

    open spec fn view(&self) -> JsonTree
        decreases self,
    {
        match self {
            JsonValue::Null => JsonTree::Null,
            JsonValue::Bool(b) => JsonTree::Bool(*b),
            JsonValue::Number(n) => JsonTree::Number(n@),
            JsonValue::String(s) => JsonTree::Text(s@),
            JsonValue::Array(items) => JsonTree::Array(item_views(items@)),
            JsonValue::Object(members) => JsonTree::Object(member_views(members@)),
        }
    }
}

/// The views of the items of an array, in order.
pub open spec fn item_views(items: Seq<JsonValue>) -> Seq<JsonTree>
    decreases items,
{
    if items.len() == 0 {
        Seq::empty()
    } else {
        item_views(items.drop_last()).push(items.last()@)
    }
}

/// The views of the members of an object, in order.
pub open spec fn member_views(members: Seq<Member>) -> Seq<(Seq<char>, JsonTree)>
    decreases members,
{
    if members.len() == 0 {
        Seq::empty()
    } else {
        member_views(members.drop_last()).push((members.last().key@, members.last().value@))
    }
}

/// The text that is printed for a structural token.
pub open spec fn operator_text(op: Operator) -> Seq<char> {
    match op {
        Operator::JsonLBrace => seq!['{'],
        Operator::JsonRBrace => seq!['}'],
        Operator::JsonLBracket => seq!['['],
        Operator::JsonRBracket => seq![']'],
        Operator::JsonColon => seq![':'],
        Operator::JsonComma => seq![','],
    }
}

/// The text that is printed for a boolean.
pub open spec fn boolean_text(value: bool) -> Seq<char> {
    if value {
        seq!['t', 'r', 'u', 'e']
    } else {
        seq!['f', 'a', 'l', 's', 'e']
    }
}

/// The text that is printed for `null`.
pub open spec fn null_text() -> Seq<char> {
    seq!['n', 'u', 'l', 'l']
}

/// The token of a structural operator.
pub open spec fn operator_token(op: Operator) -> TokenView {
    TokenView { kind: KindView::Operator(op), content: operator_text(op) }
}

/// The token of a string: the string as it is, and its JSON string literal
/// as its text.
pub open spec fn string_token(text: Seq<char>) -> TokenView {
    TokenView { kind: KindView::StringLiteral(text), content: string_literal(text) }
}

/// The token of a number: the text in which it is written.
pub open spec fn number_token(text: Seq<char>) -> TokenView {
    TokenView { kind: KindView::NumberLiteral(text), content: text }
}

/// The token of a boolean.
pub open spec fn boolean_token(value: bool) -> TokenView {
    TokenView { kind: KindView::BooleanLiteral(value), content: boolean_text(value) }
}

/// The token of `null`.
pub open spec fn null_token() -> TokenView {
    TokenView { kind: KindView::NullLiteral, content: null_text() }
}

/// The tokens of a value, in document order.
pub open spec fn tree_tokens(tree: JsonTree) -> Seq<TokenView>
    decreases tree,
{
    match tree {
        JsonTree::Null => seq![null_token()],
        JsonTree::Bool(b) => seq![boolean_token(b)],
        JsonTree::Number(n) => seq![number_token(n)],
        JsonTree::Text(s) => seq![string_token(s)],
        JsonTree::Array(items) => seq![operator_token(Operator::JsonLBracket)] + items_tokens(items)
            + seq![operator_token(Operator::JsonRBracket)],
        JsonTree::Object(members) => seq![operator_token(Operator::JsonLBrace)] + members_tokens(
            members,
        ) + seq![operator_token(Operator::JsonRBrace)],
    }
}

/// The tokens of the items of an array, with a comma between each two.
pub open spec fn items_tokens(items: Seq<JsonTree>) -> Seq<TokenView>
    decreases items,
{
    if items.len() == 0 {
        Seq::empty()
    } else if items.len() == 1 {
        tree_tokens(items.last())
    } else {
        items_tokens(items.drop_last()) + seq![operator_token(Operator::JsonComma)] + tree_tokens(
            items.last(),
        )
    }
}

/// The tokens that stand before the value of a member: its key and a colon.
pub open spec fn member_head(key: Seq<char>) -> Seq<TokenView> {
    seq![string_token(key), operator_token(Operator::JsonColon)]
}

/// The tokens of the members of an object, with a comma between each two.
pub open spec fn members_tokens(members: Seq<(Seq<char>, JsonTree)>) -> Seq<TokenView>
    decreases members,
{
    if members.len() == 0 {
        Seq::empty()
    } else if members.len() == 1 {
        member_head(members.last().0) + tree_tokens(members.last().1)
    } else {
        members_tokens(members.drop_last()) + seq![operator_token(Operator::JsonComma)]
            + member_head(members.last().0) + tree_tokens(members.last().1)
    }
}

impl JsonToken {
    /// The token of a structural operator.
    pub fn operator(op: Operator) -> (token: JsonToken)
        ensures
            token@ == operator_token(op),
    {
        proof {
            reveal_strlit("{");
            reveal_strlit("}");
            reveal_strlit("[");
            reveal_strlit("]");
            reveal_strlit(":");
            reveal_strlit(",");
        }
        let text = match op {
            Operator::JsonLBrace => "{",
            Operator::JsonRBrace => "}",
            Operator::JsonLBracket => "[",
            Operator::JsonRBracket => "]",
            Operator::JsonColon => ":",
            Operator::JsonComma => ",",
        };
        assert(text@ =~= operator_text(op));
        JsonToken { kind: TokenKind::Operator(op), content: String::from_str(text) }
    }

    /// The token of a string. Its text is the JSON string literal of the
    /// string: between double quotes, with quotes, backslashes and control
    /// characters escaped.
    pub fn string(text: &str) -> (token: JsonToken)
        ensures
            token@ == string_token(text@),
    {
        JsonToken {
            kind: TokenKind::Literal(Literal::StringLiteral(String::from_str(text))),
            content: string_literal_of(text),
        }
    }

    /// The token of a number that is written as `text`.
    pub fn number(text: &str) -> (token: JsonToken)
        ensures
            token@ == number_token(text@),
    {
        JsonToken {
            kind: TokenKind::Literal(Literal::NumberLiteral(String::from_str(text))),
            content: String::from_str(text),
        }
    }

    /// The token of a boolean.
    pub fn boolean(value: bool) -> (token: JsonToken)
        ensures
            token@ == boolean_token(value),
    {
        proof {
            reveal_strlit("true");
            reveal_strlit("false");
        }
        let text = if value {
            "true"
        } else {
            "false"
        };
        assert(text@ =~= boolean_text(value));
        JsonToken {
            kind: TokenKind::Literal(Literal::BooleanLiteral(value)),
            content: String::from_str(text),
        }
    }

    /// The token of `null`.
    pub fn null() -> (token: JsonToken)
        ensures
            token@ == null_token(),
    {
        proof {
            reveal_strlit("null");
        }
        let text = "null";
        assert(text@ =~= null_text());
        JsonToken { kind: TokenKind::Literal(Literal::NullLiteral), content: String::from_str(text) }
    }
}

/// Views go through concatenation.
pub proof fn lemma_token_views_concat(a: Seq<JsonToken>, b: Seq<JsonToken>)
    ensures
        token_views(a + b) == token_views(a) + token_views(b),
{
    assert(token_views(a + b) =~= token_views(a) + token_views(b));
}

/// The views of one more item.
pub proof fn lemma_item_views_take(items: Seq<JsonValue>, count: int)
    requires
        0 <= count < items.len(),
    ensures
        item_views(items.take(count + 1)) == item_views(items.take(count)).push(items[count]@),
        item_views(items.take(count)).len() == count,
    decreases count,
{
    assert(items.take(count + 1).drop_last() =~= items.take(count));
    if count > 0 {
        lemma_item_views_take(items, count - 1);
    }
}

/// The views of one more member.
pub proof fn lemma_member_views_take(members: Seq<Member>, count: int)
    requires
        0 <= count < members.len(),
    ensures
        member_views(members.take(count + 1)) == member_views(members.take(count)).push(
            (members[count].key@, members[count].value@),
        ),
        member_views(members.take(count)).len() == count,
    decreases count,
{
    assert(members.take(count + 1).drop_last() =~= members.take(count));
    if count > 0 {
        lemma_member_views_take(members, count - 1);
    }
}

/// Turns a value into its tokens, in document order: the members of an
/// object in the order in which the object holds them, a comma between each
/// two items or members, and nothing after the last.
pub fn tokenize_json_value(json_value: &JsonValue) -> (tokens: Vec<JsonToken>)
    ensures
        token_views(tokens@) == tree_tokens(json_value@),
        contents_joined(token_views(tokens@)) == compact_text(json_value@),
    decreases json_value,
{
    proof {
        lemma_tokens_spell_document(json_value@);
    }
    let mut tokens: Vec<JsonToken> = Vec::new();
    match json_value {
        JsonValue::Null => {
            tokens.push(JsonToken::null());
            assert(token_views(tokens@) =~= seq![null_token()]);
        },
        JsonValue::Bool(b) => {
            tokens.push(JsonToken::boolean(*b));
            assert(token_views(tokens@) =~= seq![boolean_token(*b)]);
        },
        JsonValue::Number(n) => {
            tokens.push(JsonToken::number(n.as_str()));
            assert(token_views(tokens@) =~= seq![number_token(n@)]);
        },
        JsonValue::String(s) => {
            tokens.push(JsonToken::string(s.as_str()));
            assert(token_views(tokens@) =~= seq![string_token(s@)]);
        },
        JsonValue::Array(items) => {
            tokens.push(JsonToken::operator(Operator::JsonLBracket));
            let ghost open = seq![operator_token(Operator::JsonLBracket)];
            assert(token_views(tokens@) =~= open);
            assert(items@.take(0) =~= Seq::<JsonValue>::empty());
            let count: usize = items.len();
            let mut i: usize = 0;
            while i < count
                invariant
                    i <= count == items@.len(),
                    json_value == JsonValue::Array(*items),
                    open == seq![operator_token(Operator::JsonLBracket)],
                    token_views(tokens@) == open + items_tokens(item_views(items@.take(i as int))),
                decreases count - i,
            {
                let ghost before = tokens@;
                let ghost shown = item_views(items@.take(i as int));
                if i > 0 {
                    tokens.push(JsonToken::operator(Operator::JsonComma));
                }
                let ghost between = tokens@;
                assert(decreases_to!(*json_value => json_value->Array_0));
                assert(decreases_to!(*items => items[i as int]));
                let mut inner = tokenize_json_value(&items[i]);
                let ghost inner_tokens = inner@;
                tokens.append(&mut inner);
                proof {
                    lemma_item_views_take(items@, i as int);
                    let next = item_views(items@.take(i + 1));
                    assert(next.drop_last() =~= shown);
                    assert(next.last() == items@[i as int]@);
                    lemma_token_views_concat(between, inner_tokens);
                    if i > 0 {
                        assert(between =~= before + seq![tokens@[before.len() as int]]);
                        lemma_token_views_concat(before, seq![tokens@[before.len() as int]]);
                        assert(token_views(seq![tokens@[before.len() as int]]) =~= seq![
                            operator_token(Operator::JsonComma),
                        ]);
                        assert(token_views(tokens@) =~= open + items_tokens(next));
                    } else {
                        assert(shown.len() == 0);
                        assert(items_tokens(shown) =~= Seq::<TokenView>::empty());
                        assert(token_views(tokens@) =~= open + items_tokens(next));
                    }
                }
                i = i + 1;
            }
            let ghost body = tokens@;
            tokens.push(JsonToken::operator(Operator::JsonRBracket));
            proof {
                assert(items@.take(count as int) =~= items@);
                assert(tokens@ =~= body + seq![tokens@[body.len() as int]]);
                lemma_token_views_concat(body, seq![tokens@[body.len() as int]]);
                assert(token_views(seq![tokens@[body.len() as int]]) =~= seq![
                    operator_token(Operator::JsonRBracket),
                ]);
            }
        },
        JsonValue::Object(members) => {
            tokens.push(JsonToken::operator(Operator::JsonLBrace));
            let ghost open = seq![operator_token(Operator::JsonLBrace)];
            assert(token_views(tokens@) =~= open);
            assert(members@.take(0) =~= Seq::<Member>::empty());
            let count: usize = members.len();
            let mut i: usize = 0;
            while i < count
                invariant
                    i <= count == members@.len(),
                    json_value == JsonValue::Object(*members),
                    open == seq![operator_token(Operator::JsonLBrace)],
                    token_views(tokens@) == open + members_tokens(
                        member_views(members@.take(i as int)),
                    ),
                decreases count - i,
            {
                let ghost before = tokens@;
                let ghost shown = member_views(members@.take(i as int));
                if i > 0 {
                    tokens.push(JsonToken::operator(Operator::JsonComma));
                }
                let ghost between = tokens@;
                let member = &members[i];
                tokens.push(JsonToken::string(member.key.as_str()));
                tokens.push(JsonToken::operator(Operator::JsonColon));
                let ghost headed = tokens@;
                assert(decreases_to!(*json_value => json_value->Object_0));
                assert(decreases_to!(*members => members[i as int]));
                assert(decreases_to!(*member => member.value));
                let mut inner = tokenize_json_value(&member.value);
                let ghost inner_tokens = inner@;
                tokens.append(&mut inner);
                proof {
                    lemma_member_views_take(members@, i as int);
                    let next = member_views(members@.take(i + 1));
                    assert(next.drop_last() =~= shown);
                    assert(next.last() == (member.key@, member.value@));
                    let head = seq![headed[between.len() as int], headed[between.len() as int + 1]];
                    assert(headed =~= between + head);
                    lemma_token_views_concat(between, head);
                    lemma_token_views_concat(headed, inner_tokens);
                    assert(token_views(head) =~= member_head(member.key@));
                    if i > 0 {
                        assert(between =~= before + seq![tokens@[before.len() as int]]);
                        lemma_token_views_concat(before, seq![tokens@[before.len() as int]]);
                        assert(token_views(seq![tokens@[before.len() as int]]) =~= seq![
                            operator_token(Operator::JsonComma),
                        ]);
                        assert(token_views(tokens@) =~= open + members_tokens(next));
                    } else {
                        assert(shown.len() == 0);
                        assert(members_tokens(shown) =~= Seq::<TokenView>::empty());
                        assert(token_views(tokens@) =~= open + members_tokens(next));
                    }
                }
                i = i + 1;
            }
            let ghost body = tokens@;
            tokens.push(JsonToken::operator(Operator::JsonRBrace));
            proof {
                assert(members@.take(count as int) =~= members@);
                assert(tokens@ =~= body + seq![tokens@[body.len() as int]]);
                lemma_token_views_concat(body, seq![tokens@[body.len() as int]]);
                assert(token_views(seq![tokens@[body.len() as int]]) =~= seq![
                    operator_token(Operator::JsonRBrace),
                ]);
            }
        },
    }
    tokens
}

} // verus!
