use vstd::prelude::*;
use vstd::string::*;
use crate::ast::{
    convert_number, entries_view, nodes_view, number_of, pairs_view, well_formed, AsonNode,
    KeyValuePair, NameValuePair, NodeView, Variant, VariantValue, VariantValueView, VariantView,
};
use crate::error::{AsonError, ErrorView};
use crate::location::Location;
use crate::lexer::lexed_text;
use crate::normalizer::{
    cleaned, is_newline, lemma_step_taken, negative_message, normalize_step,
    normalized, normalized_stream, normalized_tokens, overflow_message, token_item, trimmed,
    Step,
};
use crate::text::chars_of;
use crate::peekableiter::{first_error, until_error, PeekableIter, TokenIter};
use crate::token::{
    ItemView, NumberTokenView, Token, TokenView, TokenWithRange,
    TokenWithRangeView,
};

verus! {

/// An error, with the stream that is left when it is returned.
pub ghost struct Failure {
    pub error: ErrorView,
    pub left: Seq<ItemView>,
}

/// The result of reading something from the front of a stream: the value
/// and the stream behind it, or the error and the stream that is left.
pub type Parsed<T> = Result<(T, Seq<ItemView>), Failure>;

/// The failure with the error `error` that leaves the stream `left`.
pub open spec fn fail<T>(error: ErrorView, left: Seq<ItemView>) -> Result<T, Failure> {
    Err(Failure { error, left })
}

/// The message for a token that is not the expected one.
pub open spec fn expect_message(description: Seq<char>) -> Seq<char> {
    "Expect token: "@ + description + "."@
}

/// The stream behind a line break, where the stream begins with one; the
/// stream itself, where it begins with another token or is empty. An error
/// at the front of the stream is handed on and left where it is.
pub open spec fn after_newline(s: Seq<ItemView>) -> Result<Seq<ItemView>, Failure> {
    if s.len() == 0 {
        Ok(s)
    } else {
        match s[0] {
            Err(e) => fail(e, s),
            Ok(t) => if t.token is NewLine {
                Ok(s.skip(1))
            } else {
                Ok(s)
            },
        }
    }
}

/// The stream behind a separator, a comma or a line break, where the
/// stream begins with one; nothing, where it begins with another token or
/// is empty.
pub open spec fn after_separator(s: Seq<ItemView>) -> Result<Option<Seq<ItemView>>, Failure> {
    if s.len() == 0 {
        Ok(None)
    } else {
        match s[0] {
            Err(e) => fail(e, s),
            Ok(t) => if t.token is NewLine || t.token is Comma {
                Ok(Some(s.skip(1)))
            } else {
                Ok(None)
            },
        }
    }
}

/// The stream behind the token `expected`, where the stream begins with
/// it. Another item in its place is an error, and is taken all the same;
/// at the end of the stream nothing is taken.
pub open spec fn after_token(s: Seq<ItemView>, expected: TokenView, description: Seq<char>)
    -> Result<Seq<ItemView>, Failure> {
    if s.len() == 0 {
        fail(ErrorView::UnexpectedEndOfDocument(expect_message(description)), s)
    } else {
        match s[0] {
            Err(e) => fail(e, s.skip(1)),
            Ok(t) => if t.token == expected {
                Ok(s.skip(1))
            } else {
                fail(
                    ErrorView::MessageWithLocation(expect_message(description), t.range.start()),
                    s.skip(1),
                )
            },
        }
    }
}

/// Whether a colon stands at the front of the stream, or behind one line
/// break at its front.
pub open spec fn colon_follows(s: Seq<ItemView>) -> Result<bool, Failure> {
    if s.len() == 0 {
        Ok(false)
    } else {
        match s[0] {
            Err(e) => fail(e, s),
            Ok(t) => if t.token is Colon {
                Ok(true)
            } else if t.token is NewLine && s.len() > 1 {
                match s[1] {
                    Err(e) => fail(e, s),
                    Ok(u) => Ok(u.token is Colon),
                }
            } else {
                Ok(false)
            },
        }
    }
}

/// Where `expected` stands from `offset` on: `Some(false)` at `offset`
/// itself, `Some(true)` behind a line break at `offset`, and `None` where
/// it is not there.
pub open spec fn found_past_newline(s: Seq<ItemView>, offset: int, expected: TokenView) -> Result<
    Option<bool>,
    ErrorView,
> {
    if 0 <= offset < s.len() {
        match s[offset] {
            Err(e) => Err(e),
            Ok(t) => if t.token == expected {
                Ok(Some(false))
            } else if t.token is NewLine && offset + 1 < s.len() {
                match s[offset + 1] {
                    Err(e) => Err(e),
                    Ok(u) => if u.token == expected {
                        Ok(Some(true))
                    } else {
                        Ok(None)
                    },
                }
            } else {
                Ok(None)
            },
        }
    } else {
        Ok(None)
    }
}

/// Whether the elements of a bracketed construct end here: the stream is
/// empty or begins with the closing token.
pub open spec fn at_end(s: Seq<ItemView>, closer: TokenView) -> bool {
    s.len() == 0 || (s[0] matches Ok(t) && t.token == closer)
}

/// The element `first`, put in front of the elements that were read behind it.
pub open spec fn with_first<T>(first: T, more: Parsed<Seq<T>>) -> Parsed<Seq<T>> {
    match more {
        Err(e) => Err(e),
        Ok((items, rest)) => Ok((seq![first] + items, rest)),
    }
}

/// The node at the front of the stream.
///
/// A token that begins no node is an error at its start and is left in the
/// stream; so is the end of the stream, and an error that the stream holds
/// in front.
pub open spec fn parse_node(s: Seq<ItemView>) -> Parsed<NodeView>
    decreases s.len(), 10int,
{
    if s.len() == 0 {
        fail(ErrorView::UnexpectedEndOfDocument("Incomplete document."@), s)
    } else {
        match s[0] {
            Err(e) => fail(e, s),
            Ok(t) => match t.token {
                TokenView::Number(n) => Ok((NodeView::Number(number_of(n)), s.skip(1))),
                TokenView::Boolean(b) => Ok((NodeView::Boolean(b), s.skip(1))),
                TokenView::Char(c) => Ok((NodeView::Char(c), s.skip(1))),
                TokenView::String(v) => Ok((NodeView::String(v), s.skip(1))),
                TokenView::Date(d) => Ok((NodeView::DateTime(d), s.skip(1))),
                TokenView::HexByteData(d) => Ok((NodeView::HexByteData(d), s.skip(1))),
                TokenView::Variant(variant_type, member_name) => {
                    if s.len() > 1 && s[1] is Err {
                        fail(s[1]->Err_0, s)
                    } else if s.len() > 1 && s[1]->Ok_0.token is LeftParen {
                        parse_tuple_variant(s)
                    } else if s.len() > 1 && s[1]->Ok_0.token is LeftBrace {
                        parse_struct_variant(s)
                    } else {
                        Ok(
                            (
                                NodeView::Variant(
                                    VariantView {
                                        variant_type,
                                        member_name,
                                        value: VariantValueView::Empty,
                                    },
                                ),
                                s.skip(1),
                            ),
                        )
                    }
                },
                TokenView::LeftBrace => parse_object(s),
                TokenView::LeftBracket => parse_list(s),
                TokenView::LeftParen => parse_tuple(s),
                _ => fail(ErrorView::MessageWithLocation("Unexpected token."@, t.range.start()), s),
            },
        }
    }
}

/// The values up to the closing token, where the stream stands before
/// the first of them or before the closing token.
///
/// A value takes at least one token (`lemma_node_advances`), so the
/// stream behind it is always the shorter one; the test for it is there for
/// the sake of termination.
pub open spec fn parse_values(s: Seq<ItemView>, closer: TokenView) -> Parsed<Seq<NodeView>>
    decreases s.len(), 11int,
{
    if at_end(s, closer) {
        Ok((Seq::empty(), s))
    } else {
        match parse_node(s) {
            Err(e) => Err(e),
            Ok((value, rest)) => if rest.len() < s.len() {
                with_first(value, values_after(rest, closer))
            } else {
                fail(ErrorView::Message(Seq::empty()), s)
            },
        }
    }
}

/// The values that follow a value, where the stream stands behind that
/// value: none unless a separator comes next, and then those behind it.
pub open spec fn values_after(s: Seq<ItemView>, closer: TokenView) -> Parsed<Seq<NodeView>>
    decreases s.len(), 0int,
{
    match after_separator(s) {
        Err(e) => Err(e),
        Ok(None) => Ok((Seq::empty(), s)),
        Ok(Some(rest)) => parse_values(rest, closer),
    }
}

/// What follows the key of an entry: a colon, with a line break before it
/// or behind it or both or neither, and the value.
pub open spec fn parse_value_of_key(s: Seq<ItemView>) -> Parsed<NodeView>
    decreases s.len(), 11int,
{
    match after_newline(s) {
        Err(e) => Err(e),
        Ok(s1) => match after_token(s1, TokenView::Colon, "colon sign"@) {
            Err(e) => Err(e),
            Ok(s2) => match after_newline(s2) {
                Err(e) => Err(e),
                Ok(s3) => parse_node(s3),
            },
        },
    }
}

/// The entries of an object up to the closing brace, where the stream
/// stands before the first of them or before the brace.
pub open spec fn parse_pairs(s: Seq<ItemView>) -> Parsed<Seq<(Seq<char>, NodeView)>>
    decreases s.len(), 11int,
{
    if at_end(s, TokenView::RightBrace) {
        Ok((Seq::empty(), s))
    } else {
        match s[0] {
            Err(e) => fail(e, s),
            Ok(t) => match t.token {
                TokenView::Identifier(key) => match parse_value_of_key(s.skip(1)) {
                    Err(e) => Err(e),
                    Ok((value, rest)) => if rest.len() < s.len() {
                        with_first((key, value), pairs_after(rest))
                    } else {
                        fail(ErrorView::Message(Seq::empty()), s)
                    },
                },
                _ => fail(
                    ErrorView::MessageWithLocation(
                        "Expect a key name for object."@,
                        t.range.start(),
                    ),
                    s.skip(1),
                ),
            },
        }
    }
}

/// The entries that follow an entry of an object.
pub open spec fn pairs_after(s: Seq<ItemView>) -> Parsed<Seq<(Seq<char>, NodeView)>>
    decreases s.len(), 0int,
{
    match after_separator(s) {
        Err(e) => Err(e),
        Ok(None) => Ok((Seq::empty(), s)),
        Ok(Some(rest)) => parse_pairs(rest),
    }
}

/// The entries of a map up to the closing bracket, where the stream
/// stands before the first of them or before the bracket.
pub open spec fn parse_entries(s: Seq<ItemView>) -> Parsed<Seq<(NodeView, NodeView)>>
    decreases s.len(), 11int,
{
    if at_end(s, TokenView::RightBracket) {
        Ok((Seq::empty(), s))
    } else {
        match parse_node(s) {
            Err(e) => Err(e),
            Ok((name, s1)) => if s1.len() < s.len() {
                match parse_value_of_key(s1) {
                    Err(e) => Err(e),
                    Ok((value, rest)) => if rest.len() < s.len() {
                        with_first((name, value), entries_after(rest))
                    } else {
                        fail(ErrorView::Message(Seq::empty()), s)
                    },
                }
            } else {
                fail(ErrorView::Message(Seq::empty()), s)
            },
        }
    }
}

/// The entries that follow an entry of a map.
pub open spec fn entries_after(s: Seq<ItemView>) -> Parsed<Seq<(NodeView, NodeView)>>
    decreases s.len(), 0int,
{
    match after_separator(s) {
        Err(e) => Err(e),
        Ok(None) => Ok((Seq::empty(), s)),
        Ok(Some(rest)) => parse_entries(rest),
    }
}

/// The entries between the braces of an object or of a variant, where the
/// stream begins with the opening brace.
pub open spec fn parse_key_value_pairs(s: Seq<ItemView>) -> Parsed<Seq<(Seq<char>, NodeView)>>
    decreases s.len(), 8int,
{
    if s.len() == 0 {
        fail(ErrorView::UnexpectedEndOfDocument("Incomplete document."@), s)
    } else {
        match after_newline(s.skip(1)) {
            Err(e) => Err(e),
            Ok(s1) => match parse_pairs(s1) {
                Err(e) => Err(e),
                Ok((pairs, s2)) => match after_token(s2, TokenView::RightBrace, "right brace"@) {
                    Err(e) => Err(e),
                    Ok(rest) => Ok((pairs, rest)),
                },
            },
        }
    }
}

/// An object, where the stream begins with its opening brace.
pub open spec fn parse_object(s: Seq<ItemView>) -> Parsed<NodeView>
    decreases s.len(), 9int,
{
    match parse_key_value_pairs(s) {
        Err(e) => Err(e),
        Ok((pairs, rest)) => Ok((NodeView::Object(pairs), rest)),
    }
}

/// A tuple, where the stream begins with its opening parenthesis. A tuple
/// without a value is an error at its closing parenthesis.
pub open spec fn parse_tuple(s: Seq<ItemView>) -> Parsed<NodeView>
    decreases s.len(), 9int,
{
    if s.len() == 0 {
        fail(ErrorView::UnexpectedEndOfDocument("Incomplete document."@), s)
    } else {
        match after_newline(s.skip(1)) {
            Err(e) => Err(e),
            Ok(s1) => match parse_values(s1, TokenView::RightParen) {
                Err(e) => Err(e),
                Ok((values, s2)) => match after_token(
                    s2,
                    TokenView::RightParen,
                    "right parenthese"@,
                ) {
                    Err(e) => Err(e),
                    Ok(rest) => if values.len() == 0 {
                        fail(
                            ErrorView::MessageWithLocation(
                                "Tuple can not be empty."@,
                                s2[0]->Ok_0.range.start(),
                            ),
                            rest,
                        )
                    } else {
                        Ok((NodeView::Tuple(values), rest))
                    },
                },
            },
        }
    }
}

/// A variant with values in parentheses, where the stream begins with the
/// variant token and the opening parenthesis. One value is carried as
/// such, two or more as a tuple, and none is an error at the closing
/// parenthesis.
pub open spec fn parse_tuple_variant(s: Seq<ItemView>) -> Parsed<NodeView>
    decreases s.len(), 9int,
{
    if s.len() < 2 || !(s[0] matches Ok(t) && t.token is Variant) {
        fail(ErrorView::UnexpectedEndOfDocument("Incomplete document."@), s)
    } else {
        let variant_type = s[0]->Ok_0.token->Variant_0;
        let member_name = s[0]->Ok_0.token->Variant_1;
        match after_newline(s.skip(2)) {
            Err(e) => Err(e),
            Ok(s1) => match parse_values(s1, TokenView::RightParen) {
                Err(e) => Err(e),
                Ok((values, s2)) => match after_token(
                    s2,
                    TokenView::RightParen,
                    "right parenthese"@,
                ) {
                    Err(e) => Err(e),
                    Ok(rest) => if values.len() == 0 {
                        fail(
                            ErrorView::MessageWithLocation(
                                "The value of tuple style variant can not be empty."@,
                                s2[0]->Ok_0.range.start(),
                            ),
                            rest,
                        )
                    } else {
                        Ok(
                            (
                                NodeView::Variant(
                                    VariantView {
                                        variant_type,
                                        member_name,
                                        value: if values.len() == 1 {
                                            VariantValueView::Value(Box::new(values[0]))
                                        } else {
                                            VariantValueView::Tuple(values)
                                        },
                                    },
                                ),
                                rest,
                            ),
                        )
                    },
                },
            },
        }
    }
}

/// A variant with entries in braces, where the stream begins with the
/// variant token and the opening brace.
pub open spec fn parse_struct_variant(s: Seq<ItemView>) -> Parsed<NodeView>
    decreases s.len(), 9int,
{
    if s.len() < 2 || !(s[0] matches Ok(t) && t.token is Variant) {
        fail(ErrorView::UnexpectedEndOfDocument("Incomplete document."@), s)
    } else {
        let variant_type = s[0]->Ok_0.token->Variant_0;
        let member_name = s[0]->Ok_0.token->Variant_1;
        match parse_key_value_pairs(s.skip(1)) {
            Err(e) => Err(e),
            Ok((pairs, rest)) => Ok(
                (
                    NodeView::Variant(
                        VariantView {
                            variant_type,
                            member_name,
                            value: VariantValueView::Object(pairs),
                        },
                    ),
                    rest,
                ),
            ),
        }
    }
}

/// A list or a map, where the stream begins with the opening bracket.
///
/// With a colon behind the first value the construct is a map and that
/// value becomes the name of its first entry; without one it is a list.
/// Nothing between the brackets gives the empty map.
pub open spec fn parse_list(s: Seq<ItemView>) -> Parsed<NodeView>
    decreases s.len(), 9int,
{
    if s.len() == 0 {
        fail(ErrorView::UnexpectedEndOfDocument("Incomplete document."@), s)
    } else {
        match after_newline(s.skip(1)) {
            Err(e) => Err(e),
            Ok(s1) => if at_end(s1, TokenView::RightBracket) {
                match after_token(s1, TokenView::RightBracket, "right bracket"@) {
                    Err(e) => Err(e),
                    Ok(rest) => Ok((NodeView::Mapping(Seq::empty()), rest)),
                }
            } else {
                match parse_node(s1) {
                    Err(e) => Err(e),
                    Ok((first, s2)) => match colon_follows(s2) {
                        Err(e) => Err(e),
                        Ok(true) => match parse_entries(s1) {
                            Err(e) => Err(e),
                            Ok((entries, s3)) => match after_token(
                                s3,
                                TokenView::RightBracket,
                                "right bracket"@,
                            ) {
                                Err(e) => Err(e),
                                Ok(rest) => Ok((NodeView::Mapping(entries), rest)),
                            },
                        },
                        Ok(false) => match parse_values(s1, TokenView::RightBracket) {
                            Err(e) => Err(e),
                            Ok((values, s3)) => match after_token(
                                s3,
                                TokenView::RightBracket,
                                "right bracket"@,
                            ) {
                                Err(e) => Err(e),
                                Ok(rest) => Ok((NodeView::List(values), rest)),
                            },
                        },
                    },
                }
            },
        }
    }
}

/// The document of a stream: its one node, with nothing behind it.
pub open spec fn parse_document(s: Seq<ItemView>) -> Result<NodeView, ErrorView> {
    match parse_node(s) {
        Err(f) => Err(f.error),
        Ok((node, rest)) => if rest.len() == 0 {
            Ok(node)
        } else {
            match rest[0] {
                Err(e) => Err(e),
                Ok(t) => Err(
                    ErrorView::MessageWithLocation(
                        "Document has more than one node."@,
                        t.range.start(),
                    ),
                ),
            }
        },
    }
}

/// The stream behind what was read is shorter than `n` items.
pub open spec fn shorter<T>(p: Parsed<T>, n: nat) -> bool {
    p matches Ok((_, rest)) ==> rest.len() < n
}

/// The stream behind what was read is no longer than `n` items.
pub open spec fn not_longer<T>(p: Parsed<T>, n: nat) -> bool {
    p matches Ok((_, rest)) ==> rest.len() <= n
}

/// Reading a node uses up at least one item.
pub proof fn lemma_node_advances(s: Seq<ItemView>)
    ensures
        shorter(parse_node(s), s.len()),
    decreases s.len(), 10int,
{
    if s.len() > 0 && s[0] is Ok {
        match s[0]->Ok_0.token {
            TokenView::Variant(_, _) => {
                lemma_tuple_variant_advances(s);
                lemma_struct_variant_advances(s);
            },
            TokenView::LeftBrace => {
                lemma_object_advances(s);
            },
            TokenView::LeftBracket => {
                lemma_list_advances(s);
            },
            TokenView::LeftParen => {
                lemma_tuple_advances(s);
            },
            _ => {},
        }
    }
}

/// Reading values leaves no more than there was.
pub proof fn lemma_values_advance(s: Seq<ItemView>, closer: TokenView)
    ensures
        not_longer(parse_values(s, closer), s.len()),
    decreases s.len(), 11int,
{
    if !at_end(s, closer) {
        lemma_node_advances(s);
        if let Ok((_, rest)) = parse_node(s) {
            lemma_values_after_advance(rest, closer);
        }
    }
}

/// Reading the values behind a value leaves no more than there was.
pub proof fn lemma_values_after_advance(s: Seq<ItemView>, closer: TokenView)
    ensures
        not_longer(values_after(s, closer), s.len()),
    decreases s.len(), 0int,
{
    if let Ok(Some(rest)) = after_separator(s) {
        lemma_values_advance(rest, closer);
    }
}

/// Reading the value of a key uses up at least one item.
pub proof fn lemma_value_of_key_advances(s: Seq<ItemView>)
    ensures
        shorter(parse_value_of_key(s), s.len()),
    decreases s.len(), 11int,
{
    if let Ok(s1) = after_newline(s) {
        if let Ok(s2) = after_token(s1, TokenView::Colon, "colon sign"@) {
            if let Ok(s3) = after_newline(s2) {
                lemma_node_advances(s3);
            }
        }
    }
}

/// Reading the entries of an object leaves no more than there was.
pub proof fn lemma_pairs_advance(s: Seq<ItemView>)
    ensures
        not_longer(parse_pairs(s), s.len()),
    decreases s.len(), 11int,
{
    if !at_end(s, TokenView::RightBrace) && s[0] is Ok && s[0]->Ok_0.token is Identifier {
        lemma_value_of_key_advances(s.skip(1));
        if let Ok((_, rest)) = parse_value_of_key(s.skip(1)) {
            lemma_pairs_after_advance(rest);
        }
    }
}

/// Reading the entries behind an entry of an object leaves no more than there
/// was.
pub proof fn lemma_pairs_after_advance(s: Seq<ItemView>)
    ensures
        not_longer(pairs_after(s), s.len()),
    decreases s.len(), 0int,
{
    if let Ok(Some(rest)) = after_separator(s) {
        lemma_pairs_advance(rest);
    }
}

/// Reading the entries of a map leaves no more than there was.
pub proof fn lemma_entries_advance(s: Seq<ItemView>)
    ensures
        not_longer(parse_entries(s), s.len()),
    decreases s.len(), 11int,
{
    if !at_end(s, TokenView::RightBracket) {
        lemma_node_advances(s);
        if let Ok((_, s1)) = parse_node(s) {
            lemma_value_of_key_advances(s1);
            if let Ok((_, rest)) = parse_value_of_key(s1) {
                lemma_entries_after_advance(rest);
            }
        }
    }
}

/// Reading the entries behind an entry of a map leaves no more than there was.
pub proof fn lemma_entries_after_advance(s: Seq<ItemView>)
    ensures
        not_longer(entries_after(s), s.len()),
    decreases s.len(), 0int,
{
    if let Ok(Some(rest)) = after_separator(s) {
        lemma_entries_advance(rest);
    }
}

/// Reading the entries between braces uses up at least one item.
pub proof fn lemma_key_value_pairs_advance(s: Seq<ItemView>)
    ensures
        shorter(parse_key_value_pairs(s), s.len()),
    decreases s.len(), 8int,
{
    if s.len() > 0 {
        if let Ok(s1) = after_newline(s.skip(1)) {
            lemma_pairs_advance(s1);
        }
    }
}

/// Reading an object uses up at least one item.
pub proof fn lemma_object_advances(s: Seq<ItemView>)
    ensures
        shorter(parse_object(s), s.len()),
    decreases s.len(), 9int,
{
    lemma_key_value_pairs_advance(s);
}

/// Reading a tuple uses up at least one item.
pub proof fn lemma_tuple_advances(s: Seq<ItemView>)
    ensures
        shorter(parse_tuple(s), s.len()),
    decreases s.len(), 9int,
{
    if s.len() > 0 {
        if let Ok(s1) = after_newline(s.skip(1)) {
            lemma_values_advance(s1, TokenView::RightParen);
        }
    }
}

/// Reading a variant with values in parentheses uses up at least one item.
pub proof fn lemma_tuple_variant_advances(s: Seq<ItemView>)
    ensures
        shorter(parse_tuple_variant(s), s.len()),
    decreases s.len(), 9int,
{
    if s.len() >= 2 {
        if let Ok(s1) = after_newline(s.skip(2)) {
            lemma_values_advance(s1, TokenView::RightParen);
        }
    }
}

/// Reading a variant with entries in braces uses up at least one item.
pub proof fn lemma_struct_variant_advances(s: Seq<ItemView>)
    ensures
        shorter(parse_struct_variant(s), s.len()),
    decreases s.len(), 9int,
{
    if s.len() >= 2 {
        lemma_key_value_pairs_advance(s.skip(1));
    }
}

/// Reading a list or a map uses up at least one item.
pub proof fn lemma_list_advances(s: Seq<ItemView>)
    ensures
        shorter(parse_list(s), s.len()),
    decreases s.len(), 9int,
{
    if s.len() > 0 {
        if let Ok(s1) = after_newline(s.skip(1)) {
            lemma_entries_advance(s1);
            lemma_values_advance(s1, TokenView::RightBracket);
        }
    }
}

/// Whether every one of the trees is well formed.
pub open spec fn all_well_formed(items: Seq<NodeView>) -> bool {
    forall|i: int| 0 <= i < items.len() ==> well_formed(#[trigger] items[i])
}

/// Whether the value of every entry of an object is well formed.
pub open spec fn pairs_well_formed(pairs: Seq<(Seq<char>, NodeView)>) -> bool {
    forall|i: int| 0 <= i < pairs.len() ==> well_formed((#[trigger] pairs[i]).1)
}

/// Whether the name and the value of every entry of a map are well formed.
pub open spec fn entries_well_formed(entries: Seq<(NodeView, NodeView)>) -> bool {
    forall|i: int|
        0 <= i < entries.len() ==> well_formed((#[trigger] entries[i]).0) && well_formed(entries[i].1)
}

/// The tree that is read from a stream is well formed: its tuples and
/// lists are not empty, and its variants with a tuple hold two values or
/// more.
pub proof fn lemma_parsed_well_formed(s: Seq<ItemView>)
    ensures
        parse_node(s) matches Ok((n, _)) ==> well_formed(n),
    decreases s.len(), 10int,
{
    if s.len() > 0 && s[0] is Ok {
        match s[0]->Ok_0.token {
            TokenView::Variant(_, _) => {
                lemma_read_tuple_variant(s);
                lemma_read_struct_variant(s);
            },
            TokenView::LeftBrace => {
                lemma_read_object(s);
            },
            TokenView::LeftBracket => {
                lemma_read_list(s);
            },
            TokenView::LeftParen => {
                lemma_read_tuple(s);
            },
            _ => {},
        }
    }
}

proof fn lemma_read_values(s: Seq<ItemView>, closer: TokenView)
    ensures
        parse_values(s, closer) matches Ok((values, _)) ==> all_well_formed(values),
        parse_values(s, closer) matches Ok((values, _)) ==> (values.len() == 0 <==> at_end(
            s,
            closer,
        )),
    decreases s.len(), 11int,
{
    if !at_end(s, closer) {
        lemma_parsed_well_formed(s);
        if let Ok((value, rest)) = parse_node(s) {
            if rest.len() < s.len() {
                lemma_read_values_after(rest, closer);
                if let Ok((more, _)) = values_after(rest, closer) {
                    let values = seq![value] + more;
                    assert forall|i: int| 0 <= i < values.len() implies well_formed(
                        #[trigger] values[i],
                    ) by {
                        if i > 0 {
                            assert(values[i] == more[i - 1]);
                        }
                    }
                }
            }
        }
    }
}

proof fn lemma_read_values_after(s: Seq<ItemView>, closer: TokenView)
    ensures
        values_after(s, closer) matches Ok((values, _)) ==> all_well_formed(values),
    decreases s.len(), 0int,
{
    if let Ok(Some(rest)) = after_separator(s) {
        lemma_read_values(rest, closer);
    }
}

proof fn lemma_read_value_of_key(s: Seq<ItemView>)
    ensures
        parse_value_of_key(s) matches Ok((value, _)) ==> well_formed(value),
    decreases s.len(), 11int,
{
    if let Ok(s1) = after_newline(s) {
        if let Ok(s2) = after_token(s1, TokenView::Colon, "colon sign"@) {
            if let Ok(s3) = after_newline(s2) {
                lemma_parsed_well_formed(s3);
            }
        }
    }
}

proof fn lemma_read_pairs(s: Seq<ItemView>)
    ensures
        parse_pairs(s) matches Ok((pairs, _)) ==> pairs_well_formed(pairs),
    decreases s.len(), 11int,
{
    if !at_end(s, TokenView::RightBrace) && s[0] is Ok && s[0]->Ok_0.token is Identifier {
        let key = s[0]->Ok_0.token->Identifier_0;
        lemma_read_value_of_key(s.skip(1));
        if let Ok((value, rest)) = parse_value_of_key(s.skip(1)) {
            if rest.len() < s.len() {
                lemma_read_pairs_after(rest);
                if let Ok((more, _)) = pairs_after(rest) {
                    let pairs = seq![(key, value)] + more;
                    assert forall|i: int| 0 <= i < pairs.len() implies well_formed(
                        (#[trigger] pairs[i]).1,
                    ) by {
                        if i > 0 {
                            assert(pairs[i] == more[i - 1]);
                        }
                    }
                }
            }
        }
    }
}

proof fn lemma_read_pairs_after(s: Seq<ItemView>)
    ensures
        pairs_after(s) matches Ok((pairs, _)) ==> pairs_well_formed(pairs),
    decreases s.len(), 0int,
{
    if let Ok(Some(rest)) = after_separator(s) {
        lemma_read_pairs(rest);
    }
}

proof fn lemma_read_entries(s: Seq<ItemView>)
    ensures
        parse_entries(s) matches Ok((entries, _)) ==> entries_well_formed(entries),
    decreases s.len(), 11int,
{
    if !at_end(s, TokenView::RightBracket) {
        lemma_parsed_well_formed(s);
        if let Ok((name, s1)) = parse_node(s) {
            if s1.len() < s.len() {
                lemma_read_value_of_key(s1);
                if let Ok((value, rest)) = parse_value_of_key(s1) {
                    if rest.len() < s.len() {
                        lemma_read_entries_after(rest);
                        if let Ok((more, _)) = entries_after(rest) {
                            let entries = seq![(name, value)] + more;
                            assert forall|i: int| 0 <= i < entries.len() implies well_formed(
                                (#[trigger] entries[i]).0,
                            ) && well_formed(entries[i].1) by {
                                if i > 0 {
                                    assert(entries[i] == more[i - 1]);
                                }
                            }
                        }
                    }
                }
            }
        }
    }
}

proof fn lemma_read_entries_after(s: Seq<ItemView>)
    ensures
        entries_after(s) matches Ok((entries, _)) ==> entries_well_formed(entries),
    decreases s.len(), 0int,
{
    if let Ok(Some(rest)) = after_separator(s) {
        lemma_read_entries(rest);
    }
}

proof fn lemma_read_key_value_pairs(s: Seq<ItemView>)
    ensures
        parse_key_value_pairs(s) matches Ok((pairs, _)) ==> pairs_well_formed(pairs),
    decreases s.len(), 8int,
{
    if s.len() > 0 {
        if let Ok(s1) = after_newline(s.skip(1)) {
            lemma_read_pairs(s1);
        }
    }
}

proof fn lemma_read_object(s: Seq<ItemView>)
    ensures
        parse_object(s) matches Ok((n, _)) ==> well_formed(n),
    decreases s.len(), 9int,
{
    lemma_read_key_value_pairs(s);
}

proof fn lemma_read_tuple(s: Seq<ItemView>)
    ensures
        parse_tuple(s) matches Ok((n, _)) ==> well_formed(n),
    decreases s.len(), 9int,
{
    if s.len() > 0 {
        if let Ok(s1) = after_newline(s.skip(1)) {
            lemma_read_values(s1, TokenView::RightParen);
        }
    }
}

proof fn lemma_read_tuple_variant(s: Seq<ItemView>)
    ensures
        parse_tuple_variant(s) matches Ok((n, _)) ==> well_formed(n),
    decreases s.len(), 9int,
{
    if s.len() >= 2 {
        if let Ok(s1) = after_newline(s.skip(2)) {
            lemma_read_values(s1, TokenView::RightParen);
            if let Ok((values, _)) = parse_values(s1, TokenView::RightParen) {
                if values.len() > 0 {
                    assert(well_formed(values[0]));
                }
            }
        }
    }
}

proof fn lemma_read_struct_variant(s: Seq<ItemView>)
    ensures
        parse_struct_variant(s) matches Ok((n, _)) ==> well_formed(n),
    decreases s.len(), 9int,
{
    if s.len() >= 2 {
        lemma_read_key_value_pairs(s.skip(1));
    }
}

proof fn lemma_read_list(s: Seq<ItemView>)
    ensures
        parse_list(s) matches Ok((n, _)) ==> well_formed(n),
    decreases s.len(), 9int,
{
    if s.len() > 0 {
        if let Ok(s1) = after_newline(s.skip(1)) {
            lemma_read_entries(s1);
            lemma_read_values(s1, TokenView::RightBracket);
        }
    }
}

/// Whether a result and the stream that is left are what was expected.
pub open spec fn node_outcome(
    r: Result<AsonNode, AsonError>,
    left: Seq<ItemView>,
    expected: Parsed<NodeView>,
) -> bool {
    match expected {
        Err(f) => r matches Err(x) && x@ == f.error && left == f.left,
        Ok((node, rest)) => r matches Ok(v) && v@ == node && left == rest,
    }
}

/// Whether the values that were read and the stream that is left are what was
/// expected.
pub open spec fn values_outcome(
    r: Result<Vec<AsonNode>, AsonError>,
    left: Seq<ItemView>,
    expected: Parsed<Seq<NodeView>>,
) -> bool {
    match expected {
        Err(f) => r matches Err(x) && x@ == f.error && left == f.left,
        Ok((values, rest)) => r matches Ok(v) && nodes_view(v@) == values && left == rest,
    }
}

/// Whether the entries of an object that were read and the stream that is left
/// are what was expected.
pub open spec fn pairs_outcome(
    r: Result<Vec<KeyValuePair>, AsonError>,
    left: Seq<ItemView>,
    expected: Parsed<Seq<(Seq<char>, NodeView)>>,
) -> bool {
    match expected {
        Err(f) => r matches Err(x) && x@ == f.error && left == f.left,
        Ok((pairs, rest)) => r matches Ok(v) && pairs_view(v@) == pairs && left == rest,
    }
}

/// Whether the entries of a map that were read and the stream that is left are
/// what was expected.
pub open spec fn entries_outcome(
    r: Result<Vec<NameValuePair>, AsonError>,
    left: Seq<ItemView>,
    expected: Parsed<Seq<(NodeView, NodeView)>>,
) -> bool {
    match expected {
        Err(f) => r matches Err(x) && x@ == f.error && left == f.left,
        Ok((entries, rest)) => r matches Ok(v) && entries_view(v@) == entries && left == rest,
    }
}

/// The elements read so far, put in front of what is read from here on.
pub open spec fn with_prefix<T>(prefix: Seq<T>, more: Parsed<Seq<T>>) -> Parsed<Seq<T>> {
    match more {
        Err(e) => Err(e),
        Ok((items, rest)) => Ok((prefix + items, rest)),
    }
}

/// The reader of a stream of tokens: the recursive descent that builds the
/// value tree.
pub struct Parser {
    upstream: PeekableIter,
    last_range: Location,
}

impl Parser {
    /// The items that are still to read.
    pub closed spec fn remaining(&self) -> Seq<ItemView> {
        self.upstream.remaining()
    }

    /// The range of the token that was read last.
    pub closed spec fn last_range(&self) -> Location {
        self.last_range
    }

    /// A reader at the start of the stream `upstream`.
    pub fn new(upstream: PeekableIter) -> (r: Parser)
        ensures
            r.remaining() == upstream.remaining(),
    {
        Parser { upstream, last_range: Location::new_range(0, 0, 0, 0) }
    }

    /// The range of the token that was read last.
    pub fn last_token_range(&self) -> (r: Location)
        ensures
            r == self.last_range(),
    {
        self.last_range
    }

    /// Takes the next token.
    pub fn next_token(&mut self) -> (r: Result<Option<Token>, AsonError>)
        ensures
            old(self).remaining().len() == 0 ==> (r matches Ok(None) && final(self).remaining()
                == old(self).remaining() && final(self).last_range() == old(self).last_range()),
            old(self).remaining().len() > 0 ==> final(self).remaining() == old(self).remaining().skip(1) && (match old(self).remaining()[0] {
                Err(e) => r matches Err(x) && x@ == e,
                Ok(t) => r matches Ok(Some(token)) && token@ == t.token && final(self).last_range() == t.range,
            }),
    {
        match self.upstream.next() {
            Some(Ok(TokenWithRange { token, range })) => {
                self.last_range = range;
                Ok(Some(token))
            },
            Some(Err(e)) => Err(e),
            None => Ok(None),
        }
    }

    /// Shows the range of the token that is `offset` items ahead.
    pub fn peek_range(&self, offset: usize) -> (r: Result<Option<Location>, AsonError>)
        ensures
            self.remaining().len() <= usize::MAX,
            offset >= self.remaining().len() ==> (r matches Ok(None)),
            offset < self.remaining().len() ==> (match self.remaining()[offset as int] {
                Err(e) => r matches Err(x) && x@ == e,
                Ok(t) => r matches Ok(Some(range)) && range == t.range,
            }),
    {
        match self.upstream.peek(offset) {
            Some(Ok(TokenWithRange { range, .. })) => Ok(Some(*range)),
            Some(Err(e)) => Err(e.duplicate()),
            None => Ok(None),
        }
    }

    /// Shows the token that is `offset` items ahead.
    pub fn peek_token(&self, offset: usize) -> (r: Result<Option<&Token>, AsonError>)
        ensures
            self.remaining().len() <= usize::MAX,
            offset >= self.remaining().len() ==> (r matches Ok(None)),
            offset < self.remaining().len() ==> (match self.remaining()[offset as int] {
                Err(e) => r matches Err(x) && x@ == e,
                Ok(t) => r matches Ok(Some(token)) && token@ == t.token,
            }),
    {
        match self.upstream.peek(offset) {
            Some(Ok(TokenWithRange { token, .. })) => Ok(Some(token)),
            Some(Err(e)) => Err(e.duplicate()),
            None => Ok(None),
        }
    }

    /// Whether the token that is `offset` items ahead is `expected_token`.
    pub fn expect_token(&self, offset: usize, expected_token: &Token) -> (r: Result<
        bool,
        AsonError,
    >)
        ensures
            self.remaining().len() <= usize::MAX,
            offset >= self.remaining().len() ==> (r matches Ok(false)),
            offset < self.remaining().len() ==> (match self.remaining()[offset as int] {
                Err(e) => r matches Err(x) && x@ == e,
                Ok(t) => r matches Ok(b) && b == (t.token == expected_token@),
            }),
    {
        match self.peek_token(offset) {
            Ok(Some(token)) => Ok(token.equals(expected_token)),
            Ok(None) => Ok(false),
            Err(e) => Err(e),
        }
    }

    /// Looks for `expected_token` next, or behind one line break: `None`
    /// where it is not there, `Some(false)` where it comes next, and
    /// `Some(true)` where it comes behind a line break.
    pub fn expect_token_ignore_newline(&self, offset: usize, expected_token: &Token) -> (r: Result<
        Option<bool>,
        AsonError,
    >)
        ensures
            match found_past_newline(self.remaining(), offset as int, expected_token@) {
                Err(e) => r matches Err(x) && x@ == e,
                Ok(found) => r == Ok::<Option<bool>, AsonError>(found),
            },
    {
        if self.expect_token(offset, expected_token)? {
            Ok(Some(false))
        } else if self.expect_token(offset, &Token::NewLine)? && self.expect_token(
            offset + 1,
            expected_token,
        )? {
            Ok(Some(true))
        } else {
            Ok(None)
        }
    }

    /// Takes a line break, if one comes next.
    pub fn consume_new_line_if_exist(&mut self) -> (r: Result<bool, AsonError>)
        ensures
            match after_newline(old(self).remaining()) {
                Err(f) => r matches Err(x) && x@ == f.error && final(self).remaining() == f.left,
                Ok(rest) => r matches Ok(found) && final(self).remaining() == rest && found == (
                old(self).remaining().len() > 0 && is_newline(old(self).remaining()[0])),
            },
    {
        match self.peek_token(0)? {
            Some(Token::NewLine) => {
                self.next_token()?;
                Ok(true)
            },
            _ => Ok(false),
        }
    }

    /// Takes a line break or a comma, if one comes next.
    pub fn consume_new_line_or_comma_if_exist(&mut self) -> (r: Result<bool, AsonError>)
        ensures
            match after_separator(old(self).remaining()) {
                Err(f) => r matches Err(x) && x@ == f.error && final(self).remaining() == f.left,
                Ok(None) => r matches Ok(false) && final(self).remaining() == old(self).remaining(),
                Ok(Some(rest)) => r matches Ok(true) && final(self).remaining() == rest,
            },
    {
        match self.peek_token(0)? {
            Some(Token::NewLine) | Some(Token::Comma) => {
                self.next_token()?;
                Ok(true)
            },
            _ => Ok(false),
        }
    }

    /// Takes the next token, which has to be `expected_token`.
    pub fn consume_token(&mut self, expected_token: &Token, token_description: &str) -> (r: Result<
        (),
        AsonError,
    >)
        ensures
            match after_token(old(self).remaining(), expected_token@, token_description@) {
                Err(f) => r matches Err(x) && x@ == f.error && final(self).remaining() == f.left,
                Ok(rest) => r is Ok && final(self).remaining() == rest && final(self).last_range()
                    == old(self).remaining()[0]->Ok_0.range,
            },
    {
        match self.next_token()? {
            Some(token) => {
                if token.equals(expected_token) {
                    Ok(())
                } else {
                    let mut message = String::from_str("Expect token: ");
                    message.append(token_description);
                    message.append(".");
                    Err(
                        AsonError::MessageWithLocation(
                            message,
                            self.last_range.get_position_by_range_start(),
                        ),
                    )
                }
            },
            None => {
                let mut message = String::from_str("Expect token: ");
                message.append(token_description);
                message.append(".");
                Err(AsonError::UnexpectedEndOfDocument(message))
            },
        }
    }

    /// Takes the closing parenthesis `)`.
    pub fn consume_right_paren(&mut self) -> (r: Result<(), AsonError>)
        ensures
            match after_token(old(self).remaining(), TokenView::RightParen, "right parenthese"@) {
                Err(f) => r matches Err(x) && x@ == f.error && final(self).remaining() == f.left,
                Ok(rest) => r is Ok && final(self).remaining() == rest && final(self).last_range()
                    == old(self).remaining()[0]->Ok_0.range,
            },
    {
        self.consume_token(&Token::RightParen, "right parenthese")
    }

    /// Takes the closing bracket `]`.
    pub fn consume_right_bracket(&mut self) -> (r: Result<(), AsonError>)
        ensures
            match after_token(old(self).remaining(), TokenView::RightBracket, "right bracket"@) {
                Err(f) => r matches Err(x) && x@ == f.error && final(self).remaining() == f.left,
                Ok(rest) => r is Ok && final(self).remaining() == rest && final(self).last_range()
                    == old(self).remaining()[0]->Ok_0.range,
            },
    {
        self.consume_token(&Token::RightBracket, "right bracket")
    }

    /// Takes the closing brace `}`.
    pub fn consume_right_brace(&mut self) -> (r: Result<(), AsonError>)
        ensures
            match after_token(old(self).remaining(), TokenView::RightBrace, "right brace"@) {
                Err(f) => r matches Err(x) && x@ == f.error && final(self).remaining() == f.left,
                Ok(rest) => r is Ok && final(self).remaining() == rest && final(self).last_range()
                    == old(self).remaining()[0]->Ok_0.range,
            },
    {
        self.consume_token(&Token::RightBrace, "right brace")
    }

    /// Takes the colon `:`.
    pub fn consume_colon(&mut self) -> (r: Result<(), AsonError>)
        ensures
            match after_token(old(self).remaining(), TokenView::Colon, "colon sign"@) {
                Err(f) => r matches Err(x) && x@ == f.error && final(self).remaining() == f.left,
                Ok(rest) => r is Ok && final(self).remaining() == rest && final(self).last_range()
                    == old(self).remaining()[0]->Ok_0.range,
            },
    {
        self.consume_token(&Token::Colon, "colon sign")
    }
}

/// What the next tokens say of the node that begins here.
enum NodeStart {
    /// A token that is a node by itself.
    Simple,
    /// A variant with nothing behind it.
    UnitVariant,
    /// A variant with `(` behind it.
    TupleVariant,
    /// A variant with `{` behind it.
    StructVariant,
    Object,
    List,
    Tuple,
    /// A token that begins no node, with its range.
    Unexpected(Location),
    /// The end of the stream.
    End,
}

impl Parser {
    /// Whether the elements end here: nothing is left, or `closer` comes
    /// next.
    fn at_end(&self, closer: &Token) -> (r: Result<bool, AsonError>)
        ensures
            self.remaining().len() > 0 && self.remaining()[0] is Err ==> (r matches Err(x) && x@
                == self.remaining()[0]->Err_0),
            !(self.remaining().len() > 0 && self.remaining()[0] is Err) ==> (r matches Ok(b) && b
                == at_end(self.remaining(), closer@)),
    {
        match self.peek_token(0)? {
            Some(token) => Ok(token.equals(closer)),
            None => Ok(true),
        }
    }

    /// Looks at the next tokens to tell what kind of node begins here.
    fn node_start(&self) -> (r: Result<NodeStart, AsonError>)
        ensures
            self.remaining().len() == 0 ==> (r matches Ok(NodeStart::End)),
            self.remaining().len() > 0 ==> (match self.remaining()[0] {
                Err(e) => r matches Err(x) && x@ == e,
                Ok(t) => match t.token {
                    TokenView::Number(_)
                    | TokenView::Boolean(_)
                    | TokenView::Char(_)
                    | TokenView::String(_)
                    | TokenView::Date(_)
                    | TokenView::HexByteData(_) => r matches Ok(NodeStart::Simple),
                    TokenView::Variant(_, _) => {
                        if self.remaining().len() > 1 && self.remaining()[1] is Err {
                            r matches Err(x) && x@ == self.remaining()[1]->Err_0
                        } else if self.remaining().len() > 1 && self.remaining()[1]->Ok_0.token
                            is LeftParen {
                            r matches Ok(NodeStart::TupleVariant)
                        } else if self.remaining().len() > 1 && self.remaining()[1]->Ok_0.token
                            is LeftBrace {
                            r matches Ok(NodeStart::StructVariant)
                        } else {
                            r matches Ok(NodeStart::UnitVariant)
                        }
                    },
                    TokenView::LeftBrace => r matches Ok(NodeStart::Object),
                    TokenView::LeftBracket => r matches Ok(NodeStart::List),
                    TokenView::LeftParen => r matches Ok(NodeStart::Tuple),
                    _ => r matches Ok(NodeStart::Unexpected(range)) && range == t.range,
                },
            }),
    {
        let range = self.peek_range(0)?;
        match self.peek_token(0)? {
            None => Ok(NodeStart::End),
            Some(token) => match token {
                Token::Number(_)
                | Token::Boolean(_)
                | Token::Char(_)
                | Token::String(_)
                | Token::Date(_)
                | Token::HexByteData(_) => Ok(NodeStart::Simple),
                Token::Variant(_, _) => match self.peek_token(1)? {
                    Some(Token::LeftParen) => Ok(NodeStart::TupleVariant),
                    Some(Token::LeftBrace) => Ok(NodeStart::StructVariant),
                    _ => Ok(NodeStart::UnitVariant),
                },
                Token::LeftBrace => Ok(NodeStart::Object),
                Token::LeftBracket => Ok(NodeStart::List),
                Token::LeftParen => Ok(NodeStart::Tuple),
                _ => match range {
                    Some(range) => Ok(NodeStart::Unexpected(range)),
                    None => Ok(NodeStart::End),
                },
            },
        }
    }

    /// Reads the node that begins here.
    pub fn parse_node(&mut self) -> (r: Result<AsonNode, AsonError>)
        ensures
            node_outcome(r, final(self).remaining(), parse_node(old(self).remaining())),
            r matches Ok(node) ==> well_formed(node@),
        decreases old(self).remaining().len(), 10int,
    {
        proof {
            lemma_parsed_well_formed(self.remaining());
        }
        match self.node_start()? {
            NodeStart::End => Err(AsonError::end_of_document("Incomplete document.")),
            NodeStart::Unexpected(range) => Err(
                AsonError::at("Unexpected token.", range.get_position_by_range_start()),
            ),
            NodeStart::TupleVariant => self.parse_tuple_variant(),
            NodeStart::StructVariant => self.parse_struct_variant(),
            NodeStart::Object => self.parse_object(),
            NodeStart::List => self.parse_list(),
            NodeStart::Tuple => self.parse_tuple(),
            NodeStart::Simple | NodeStart::UnitVariant => {
                match self.next_token()? {
                    Some(Token::Number(n)) => Ok(AsonNode::Number(convert_number(&n))),
                    Some(Token::Boolean(b)) => Ok(AsonNode::Boolean(b)),
                    Some(Token::Char(c)) => Ok(AsonNode::Char(c)),
                    Some(Token::String(v)) => Ok(AsonNode::String(v)),
                    Some(Token::Date(d)) => Ok(AsonNode::DateTime(d)),
                    Some(Token::HexByteData(d)) => Ok(AsonNode::HexByteData(d)),
                    Some(Token::Variant(variant_type, member_name)) => Ok(
                        AsonNode::Variant(
                            Variant { variant_type, member_name, value: VariantValue::Empty },
                        ),
                    ),
                    _ => Err(AsonError::end_of_document("Incomplete document.")),
                }
            },
        }
    }

    /// Reads the values that follow a value, up to `closer`, and adds them
    /// to `items`.
    fn parse_more_values(&mut self, closer: &Token, given: Vec<AsonNode>) -> (r: Result<
        Vec<AsonNode>,
        AsonError,
    >)
        ensures
            values_outcome(
                r,
                final(self).remaining(),
                with_prefix(nodes_view(given@), values_after(old(self).remaining(), closer@)),
            ),
        decreases old(self).remaining().len(), 12int,
    {
        let ghost start = self.remaining();
        let ghost first = nodes_view(given@);
        let mut items = given;
        loop
            invariant_except_break
                start == old(self).remaining(),
                first == nodes_view(given@),
                self.remaining().len() <= start.len(),
                with_prefix(first, values_after(start, closer@)) == with_prefix(
                    nodes_view(items@),
                    values_after(self.remaining(), closer@),
                ),
            ensures
                start == old(self).remaining(),
                first == nodes_view(given@),
                with_prefix(first, values_after(start, closer@)) == Ok::<
                    (Seq<NodeView>, Seq<ItemView>),
                    Failure,
                >((nodes_view(items@), self.remaining())),
            decreases self.remaining().len(),
        {
            let ghost prefix = nodes_view(items@);
            assert(prefix + Seq::<NodeView>::empty() =~= prefix);
            if !self.consume_new_line_or_comma_if_exist()? {
                break ;
            }
            proof {
                let here = self.remaining();
                if here.len() > 0 && here[0] is Err {
                    assert(parse_node(here) == Err::<(NodeView, Seq<ItemView>), Failure>(
                        Failure { error: here[0]->Err_0, left: here },
                    ));
                }
            }
            if self.at_end(closer)? {
                break ;
            }
            proof {
                lemma_node_advances(self.remaining());
            }
            let value = self.parse_node()?;
            items.push(value);
            proof {
                assert(nodes_view(items@) =~= prefix.push(value@));
                let more = values_after(self.remaining(), closer@);
                if more is Ok {
                    assert(prefix + (seq![value@] + more->Ok_0.0) =~= prefix.push(value@)
                        + more->Ok_0.0);
                }
            }
        }
        Ok(items)
    }

    /// Reads the values up to `closer`, from before the first of them.
    fn parse_values(&mut self, closer: &Token) -> (r: Result<Vec<AsonNode>, AsonError>)
        ensures
            values_outcome(
                r,
                final(self).remaining(),
                parse_values(old(self).remaining(), closer@),
            ),
        decreases old(self).remaining().len(), 13int,
    {
        let mut items: Vec<AsonNode> = Vec::new();
        let ghost start = self.remaining();
        if self.at_end(closer)? {
            assert(nodes_view(items@) =~= Seq::empty());
            return Ok(items);
        }
        proof {
            lemma_node_advances(start);
        }
        let first = self.parse_node()?;
        items.push(first);
        proof {
            assert(nodes_view(items@) =~= seq![first@]);
            let more = values_after(self.remaining(), closer@);
            if more is Ok {
                assert(seq![first@] + more->Ok_0.0 =~= nodes_view(items@) + more->Ok_0.0);
            }
        }
        self.parse_more_values(closer, items)
    }

    /// Reads what follows the key of an entry: the colon and the value.
    fn parse_value_of_key(&mut self) -> (r: Result<AsonNode, AsonError>)
        ensures
            node_outcome(r, final(self).remaining(), parse_value_of_key(old(self).remaining())),
        decreases old(self).remaining().len(), 11int,
    {
        self.consume_new_line_if_exist()?;
        self.consume_colon()?;
        self.consume_new_line_if_exist()?;
        self.parse_node()
    }

    /// Reads one entry of an object, from before its key.
    fn parse_pair(&mut self) -> (r: Result<KeyValuePair, AsonError>)
        requires
            old(self).remaining().len() > 0,
            old(self).remaining()[0] is Ok,
        ensures
            match old(self).remaining()[0]->Ok_0.token {
                TokenView::Identifier(key) => match parse_value_of_key(
                    old(self).remaining().skip(1),
                ) {
                    Err(f) => r matches Err(x) && x@ == f.error && final(self).remaining()
                        == f.left,
                    Ok((value, rest)) => r matches Ok(pair) && pair.key@ == key && (*pair.value)@
                        == value && final(self).remaining() == rest,
                },
                _ => r matches Err(x) && x@ == ErrorView::MessageWithLocation(
                    "Expect a key name for object."@,
                    old(self).remaining()[0]->Ok_0.range.start(),
                ) && final(self).remaining() == old(self).remaining().skip(1),
            },
        decreases old(self).remaining().len(), 12int,
    {
        let key = match self.next_token()? {
            Some(Token::Identifier(key)) => key,
            Some(_) => {
                return Err(
                    AsonError::at(
                        "Expect a key name for object.",
                        self.last_range.get_position_by_range_start(),
                    ),
                );
            },
            None => {
                return Err(AsonError::end_of_document("Expect a key name for object."));
            },
        };
        let value = self.parse_value_of_key()?;
        Ok(KeyValuePair { key, value: Box::new(value) })
    }

    /// Reads the entries of an object that follow an entry, and adds them
    /// to `pairs`.
    fn parse_more_pairs(&mut self, given: Vec<KeyValuePair>) -> (r: Result<
        Vec<KeyValuePair>,
        AsonError,
    >)
        ensures
            pairs_outcome(
                r,
                final(self).remaining(),
                with_prefix(pairs_view(given@), pairs_after(old(self).remaining())),
            ),
        decreases old(self).remaining().len(), 13int,
    {
        let ghost start = self.remaining();
        let ghost first = pairs_view(given@);
        let mut pairs = given;
        loop
            invariant_except_break
                start == old(self).remaining(),
                first == pairs_view(given@),
                self.remaining().len() <= start.len(),
                with_prefix(first, pairs_after(start)) == with_prefix(
                    pairs_view(pairs@),
                    pairs_after(self.remaining()),
                ),
            ensures
                start == old(self).remaining(),
                first == pairs_view(given@),
                with_prefix(first, pairs_after(start)) == Ok::<
                    (Seq<(Seq<char>, NodeView)>, Seq<ItemView>),
                    Failure,
                >((pairs_view(pairs@), self.remaining())),
            decreases self.remaining().len(),
        {
            let ghost prefix = pairs_view(pairs@);
            assert(prefix + Seq::<(Seq<char>, NodeView)>::empty() =~= prefix);
            if !self.consume_new_line_or_comma_if_exist()? {
                break ;
            }
            if self.at_end(&Token::RightBrace)? {
                break ;
            }
            proof {
                lemma_value_of_key_advances(self.remaining().skip(1));
            }
            let pair = self.parse_pair()?;
            let ghost pair_view = (pair.key@, (*pair.value)@);
            pairs.push(pair);
            proof {
                assert(pairs_view(pairs@) =~= prefix.push(pair_view));
                let more = pairs_after(self.remaining());
                if more is Ok {
                    assert(prefix + (seq![pair_view] + more->Ok_0.0) =~= prefix.push(pair_view)
                        + more->Ok_0.0);
                }
            }
        }
        Ok(pairs)
    }

    /// Reads the entries of an object up to the closing brace, from before
    /// the first of them.
    fn parse_pairs(&mut self) -> (r: Result<Vec<KeyValuePair>, AsonError>)
        ensures
            pairs_outcome(r, final(self).remaining(), parse_pairs(old(self).remaining())),
        decreases old(self).remaining().len(), 14int,
    {
        let mut pairs: Vec<KeyValuePair> = Vec::new();
        let ghost start = self.remaining();
        if self.at_end(&Token::RightBrace)? {
            assert(pairs_view(pairs@) =~= Seq::empty());
            return Ok(pairs);
        }
        proof {
            lemma_value_of_key_advances(start.skip(1));
        }
        let first = self.parse_pair()?;
        let ghost first_view = (first.key@, (*first.value)@);
        pairs.push(first);
        proof {
            assert(pairs_view(pairs@) =~= seq![first_view]);
            let more = pairs_after(self.remaining());
            if more is Ok {
                assert(seq![first_view] + more->Ok_0.0 =~= pairs_view(pairs@) + more->Ok_0.0);
            }
        }
        self.parse_more_pairs(pairs)
    }

    /// Reads the entries of a map that follow an entry, and adds them to
    /// `entries`.
    fn parse_more_entries(&mut self, given: Vec<NameValuePair>) -> (r: Result<
        Vec<NameValuePair>,
        AsonError,
    >)
        ensures
            entries_outcome(
                r,
                final(self).remaining(),
                with_prefix(entries_view(given@), entries_after(old(self).remaining())),
            ),
        decreases old(self).remaining().len(), 13int,
    {
        let ghost start = self.remaining();
        let ghost first = entries_view(given@);
        let mut entries = given;
        loop
            invariant_except_break
                start == old(self).remaining(),
                first == entries_view(given@),
                self.remaining().len() <= start.len(),
                with_prefix(first, entries_after(start)) == with_prefix(
                    entries_view(entries@),
                    entries_after(self.remaining()),
                ),
            ensures
                start == old(self).remaining(),
                first == entries_view(given@),
                with_prefix(first, entries_after(start)) == Ok::<
                    (Seq<(NodeView, NodeView)>, Seq<ItemView>),
                    Failure,
                >((entries_view(entries@), self.remaining())),
            decreases self.remaining().len(),
        {
            let ghost prefix = entries_view(entries@);
            assert(prefix + Seq::<(NodeView, NodeView)>::empty() =~= prefix);
            if !self.consume_new_line_or_comma_if_exist()? {
                break ;
            }
            proof {
                let here = self.remaining();
                if here.len() > 0 && here[0] is Err {
                    assert(parse_node(here) == Err::<(NodeView, Seq<ItemView>), Failure>(
                        Failure { error: here[0]->Err_0, left: here },
                    ));
                }
            }
            if self.at_end(&Token::RightBracket)? {
                break ;
            }
            proof {
                lemma_node_advances(self.remaining());
            }
            let name = self.parse_node()?;
            proof {
                lemma_value_of_key_advances(self.remaining());
            }
            let value = self.parse_value_of_key()?;
            let ghost entry_view = (name@, value@);
            entries.push(NameValuePair { name: Box::new(name), value: Box::new(value) });
            proof {
                assert(entries_view(entries@) =~= prefix.push(entry_view));
                let more = entries_after(self.remaining());
                if more is Ok {
                    assert(prefix + (seq![entry_view] + more->Ok_0.0) =~= prefix.push(entry_view)
                        + more->Ok_0.0);
                }
            }
        }
        Ok(entries)
    }

    /// Reads a list or a map, from before its opening bracket.
    fn parse_list(&mut self) -> (r: Result<AsonNode, AsonError>)
        requires
            old(self).remaining().len() > 0,
            old(self).remaining()[0] is Ok,
        ensures
            node_outcome(r, final(self).remaining(), parse_list(old(self).remaining())),
        decreases old(self).remaining().len(), 9int,
    {
        self.next_token()?;
        self.consume_new_line_if_exist()?;
        let ghost inner = self.remaining();
        if self.at_end(&Token::RightBracket)? {
            self.consume_right_bracket()?;
            let node = AsonNode::mapping(Vec::new());
            assert(node@->Mapping_0 =~= Seq::empty());
            return Ok(node);
        }
        proof {
            lemma_node_advances(inner);
        }
        let first = self.parse_node()?;
        let ghost first_view = first@;
        let is_map = self.expect_token_ignore_newline(0, &Token::Colon)?.is_some();
        if is_map {
            proof {
                lemma_value_of_key_advances(self.remaining());
            }
            let value = self.parse_value_of_key()?;
            let ghost entry_view = (first_view, value@);
            let mut entries: Vec<NameValuePair> = Vec::new();
            entries.push(NameValuePair { name: Box::new(first), value: Box::new(value) });
            proof {
                assert(entries_view(entries@) =~= seq![entry_view]);
                let more = entries_after(self.remaining());
                if more is Ok {
                    assert(seq![entry_view] + more->Ok_0.0 =~= entries_view(entries@)
                        + more->Ok_0.0);
                }
            }
            let entries = self.parse_more_entries(entries)?;
            self.consume_right_bracket()?;
            Ok(AsonNode::mapping(entries))
        } else {
            let mut items: Vec<AsonNode> = Vec::new();
            items.push(first);
            proof {
                assert(nodes_view(items@) =~= seq![first_view]);
                let more = values_after(self.remaining(), TokenView::RightBracket);
                if more is Ok {
                    assert(seq![first_view] + more->Ok_0.0 =~= nodes_view(items@) + more->Ok_0.0);
                }
            }
            let items = self.parse_more_values(&Token::RightBracket, items)?;
            self.consume_right_bracket()?;
            Ok(AsonNode::list(items))
        }
    }

    /// Reads the entries between the braces of an object or of a variant,
    /// from before the opening brace.
    fn parse_key_value_pairs(&mut self) -> (r: Result<Vec<KeyValuePair>, AsonError>)
        requires
            old(self).remaining().len() > 0,
            old(self).remaining()[0] is Ok,
        ensures
            pairs_outcome(
                r,
                final(self).remaining(),
                parse_key_value_pairs(old(self).remaining()),
            ),
        decreases old(self).remaining().len(), 8int,
    {
        self.next_token()?;
        self.consume_new_line_if_exist()?;
        let pairs = self.parse_pairs()?;
        self.consume_right_brace()?;
        Ok(pairs)
    }

    /// Reads an object, from before its opening brace.
    fn parse_object(&mut self) -> (r: Result<AsonNode, AsonError>)
        requires
            old(self).remaining().len() > 0,
            old(self).remaining()[0] is Ok,
        ensures
            node_outcome(r, final(self).remaining(), parse_object(old(self).remaining())),
        decreases old(self).remaining().len(), 9int,
    {
        let pairs = self.parse_key_value_pairs()?;
        Ok(AsonNode::object(pairs))
    }

    /// Reads a tuple, from before its opening parenthesis.
    fn parse_tuple(&mut self) -> (r: Result<AsonNode, AsonError>)
        requires
            old(self).remaining().len() > 0,
            old(self).remaining()[0] is Ok,
        ensures
            node_outcome(r, final(self).remaining(), parse_tuple(old(self).remaining())),
        decreases old(self).remaining().len(), 9int,
    {
        self.next_token()?;
        self.consume_new_line_if_exist()?;
        let items = self.parse_values(&Token::RightParen)?;
        self.consume_right_paren()?;
        if items.len() == 0 {
            Err(AsonError::at("Tuple can not be empty.", self.last_range.get_position_by_range_start()))
        } else {
            Ok(AsonNode::tuple(items))
        }
    }

    /// Reads a variant with values in parentheses, from before the variant
    /// token.
    fn parse_tuple_variant(&mut self) -> (r: Result<AsonNode, AsonError>)
        requires
            old(self).remaining().len() >= 2,
            old(self).remaining()[0] matches Ok(t) && t.token is Variant,
            old(self).remaining()[1] is Ok,
        ensures
            node_outcome(r, final(self).remaining(), parse_tuple_variant(old(self).remaining())),
        decreases old(self).remaining().len(), 9int,
    {
        let ghost start = self.remaining();
        let (variant_type, member_name) = match self.next_token()? {
            Some(Token::Variant(variant_type, member_name)) => (variant_type, member_name),
            _ => {
                return Err(AsonError::end_of_document("Incomplete document."));
            },
        };
        self.next_token()?;
        assert(self.remaining() =~= start.skip(2));
        self.consume_new_line_if_exist()?;
        let mut items = self.parse_values(&Token::RightParen)?;
        self.consume_right_paren()?;
        let ghost values = nodes_view(items@);
        if items.len() == 0 {
            Err(
                AsonError::at(
                    "The value of tuple style variant can not be empty.",
                    self.last_range.get_position_by_range_start(),
                ),
            )
        } else if items.len() == 1 {
            let value = items.pop().unwrap();
            assert(value@ == values[0]);
            Ok(
                AsonNode::Variant(
                    Variant { variant_type, member_name, value: VariantValue::Value(Box::new(value)) },
                ),
            )
        } else {
            let node = AsonNode::Variant(
                Variant { variant_type, member_name, value: VariantValue::Tuple(items) },
            );
            assert(node@->Variant_0.value->Tuple_0 =~= values);
            Ok(node)
        }
    }

    /// Reads a variant with entries in braces, from before the variant
    /// token.
    fn parse_struct_variant(&mut self) -> (r: Result<AsonNode, AsonError>)
        requires
            old(self).remaining().len() >= 2,
            old(self).remaining()[0] matches Ok(t) && t.token is Variant,
            old(self).remaining()[1] is Ok,
        ensures
            node_outcome(r, final(self).remaining(), parse_struct_variant(old(self).remaining())),
        decreases old(self).remaining().len(), 9int,
    {
        let (variant_type, member_name) = match self.next_token()? {
            Some(Token::Variant(variant_type, member_name)) => (variant_type, member_name),
            _ => {
                return Err(AsonError::end_of_document("Incomplete document."));
            },
        };
        let pairs = self.parse_key_value_pairs()?;
        let node = AsonNode::Variant(
            Variant { variant_type, member_name, value: VariantValue::Object(pairs) },
        );
        assert(node@->Variant_0.value->Object_0 =~= pairs_view(pairs@));
        Ok(node)
    }
}

/// Whether a result is the expected document or the expected error.
pub open spec fn document_outcome(
    r: Result<AsonNode, AsonError>,
    expected: Result<NodeView, ErrorView>,
) -> bool {
    match expected {
        Err(e) => r matches Err(x) && x@ == e,
        Ok(node) => r matches Ok(v) && v@ == node,
    }
}

/// Reads the document that a stream of tokens holds: one node, and nothing
/// behind it.
pub fn parse_from_token_stream(upstream: PeekableIter) -> (r: Result<AsonNode, AsonError>)
    ensures
        document_outcome(r, parse_document(upstream.remaining())),
        r matches Ok(node) ==> well_formed(node@),
{
    let mut parser = Parser::new(upstream);
    let root = parser.parse_node()?;
    match parser.next_token()? {
        Some(_) => Err(
            AsonError::at(
                "Document has more than one node.",
                parser.last_range.get_position_by_range_start(),
            ),
        ),
        None => Ok(root),
    }
}

/// The document that a text holds, or the first error on the way to it.
pub open spec fn parse_text(chars: Seq<char>) -> Result<NodeView, ErrorView> {
    parse_document(normalized_stream(lexed_text(chars)))
}

/// Reads the document that the characters hold.
pub fn parse_from_char_stream(chars: Vec<char>) -> (r: Result<AsonNode, AsonError>)
    ensures
        document_outcome(r, parse_text(chars@)),
        r matches Ok(node) ==> well_formed(node@),
{
    parse_from_token_stream(normalized_tokens(chars))
}

/// Reads the document that a text holds.
pub fn parse_from_str(s: &str) -> (r: Result<AsonNode, AsonError>)
    ensures
        document_outcome(r, parse_text(s@)),
        r matches Ok(node) ==> well_formed(node@),
{
    parse_from_char_stream(chars_of(s))
}

/// A comma and a line break between two elements are worth the same: with
/// either in front of a stream, the elements that follow are the same and
/// stop at the same place. This holds of the values of a list, a tuple and
/// a variant, of the entries of an object and a variant, and of the entries
/// of a map.
pub proof fn lemma_separators_interchangeable(
    comma: Location,
    newline: Location,
    behind: Seq<ItemView>,
    closer: TokenView,
)
    ensures
        ({
            let with_comma = seq![token_item(TokenView::Comma, comma)] + behind;
            let with_newline = seq![token_item(TokenView::NewLine, newline)] + behind;
            &&& values_after(with_comma, closer) == values_after(with_newline, closer)
            &&& pairs_after(with_comma) == pairs_after(with_newline)
            &&& entries_after(with_comma) == entries_after(with_newline)
        }),
{
    let with_comma = seq![token_item(TokenView::Comma, comma)] + behind;
    let with_newline = seq![token_item(TokenView::NewLine, newline)] + behind;
    assert(with_comma.skip(1) =~= behind);
    assert(with_newline.skip(1) =~= behind);
}

/// A separator in front of the closing token is legal and changes
/// nothing: behind an element, the stream `separator closer ...` gives the
/// same elements, none, as the stream `closer ...`, and stops at the closing
/// token. This holds of `)`, `]` and `}` alike.
pub proof fn lemma_trailing_separator(
    separator: TokenView,
    at: Location,
    closing: Location,
    behind: Seq<ItemView>,
)
    requires
        separator is Comma || separator is NewLine,
    ensures
        ({
            let paren = seq![token_item(TokenView::RightParen, closing)] + behind;
            let bracket = seq![token_item(TokenView::RightBracket, closing)] + behind;
            let brace = seq![token_item(TokenView::RightBrace, closing)] + behind;
            let sep = seq![token_item(separator, at)];
            &&& values_after(sep + paren, TokenView::RightParen) == Ok::<
                    (Seq<NodeView>, Seq<ItemView>),
                    Failure,
                >((Seq::empty(), paren))
            &&& values_after(paren, TokenView::RightParen) == values_after(
                sep + paren,
                TokenView::RightParen,
            )
            &&& values_after(sep + bracket, TokenView::RightBracket) == Ok::<
                    (Seq<NodeView>, Seq<ItemView>),
                    Failure,
                >((Seq::empty(), bracket))
            &&& values_after(bracket, TokenView::RightBracket) == values_after(
                sep + bracket,
                TokenView::RightBracket,
            )
            &&& entries_after(sep + bracket) == Ok::<
                    (Seq<(NodeView, NodeView)>, Seq<ItemView>),
                    Failure,
                >((Seq::empty(), bracket))
            &&& entries_after(bracket) == entries_after(sep + bracket)
            &&& pairs_after(sep + brace) == Ok::<
                    (Seq<(Seq<char>, NodeView)>, Seq<ItemView>),
                    Failure,
                >((Seq::empty(), brace))
            &&& pairs_after(brace) == pairs_after(sep + brace)
        }),
{
    let paren = seq![token_item(TokenView::RightParen, closing)] + behind;
    let bracket = seq![token_item(TokenView::RightBracket, closing)] + behind;
    let brace = seq![token_item(TokenView::RightBrace, closing)] + behind;
    let sep = seq![token_item(separator, at)];
    assert((sep + paren).skip(1) =~= paren);
    assert((sep + bracket).skip(1) =~= bracket);
    assert((sep + brace).skip(1) =~= brace);
}

/// What stands between brackets is a map exactly if a colon follows its
/// first value, at once or behind one line break, and a list otherwise;
/// the first value alone decides for all the elements. Nothing between the
/// brackets is the empty map.
pub proof fn lemma_list_or_map(s: Seq<ItemView>)
    requires
        s.len() > 0,
        parse_list(s) is Ok,
    ensures
        ({
            let inner = after_newline(s.skip(1))->Ok_0;
            let node = parse_list(s)->Ok_0.0;
            &&& after_newline(s.skip(1)) is Ok
            &&& node is Mapping || node is List
            &&& at_end(inner, TokenView::RightBracket) ==> node == NodeView::Mapping(Seq::empty())
            &&& !at_end(inner, TokenView::RightBracket) ==> {
                &&& parse_node(inner) is Ok
                &&& colon_follows(parse_node(inner)->Ok_0.1) is Ok
                &&& colon_follows(parse_node(inner)->Ok_0.1) == Ok::<bool, Failure>(true) ==> {
                    &&& parse_entries(inner) is Ok
                    &&& node == NodeView::Mapping(parse_entries(inner)->Ok_0.0)
                    &&& parse_entries(inner)->Ok_0.0.len() > 0
                    &&& parse_entries(inner)->Ok_0.0[0].0 == parse_node(inner)->Ok_0.0
                }
                &&& colon_follows(parse_node(inner)->Ok_0.1) == Ok::<bool, Failure>(false) ==> {
                    &&& parse_values(inner, TokenView::RightBracket) is Ok
                    &&& node == NodeView::List(
                        parse_values(inner, TokenView::RightBracket)->Ok_0.0,
                    )
                    &&& parse_values(inner, TokenView::RightBracket)->Ok_0.0.len() > 0
                    &&& parse_values(inner, TokenView::RightBracket)->Ok_0.0[0] == parse_node(
                        inner,
                    )->Ok_0.0
                }
            }
        }),
{
    let inner = after_newline(s.skip(1))->Ok_0;
    if !at_end(inner, TokenView::RightBracket) {
        lemma_node_advances(inner);
        let first = parse_node(inner)->Ok_0;
        lemma_value_of_key_advances(first.1);
    }
}

/// The three stages hand a stream of one token on as it is, where the
/// token is neither a comment nor a line break and the main stage hands it
/// on.
proof fn lemma_single_token_stream(item: ItemView)
    requires
        item is Ok,
        !(item->Ok_0.token is Comment),
        !(item->Ok_0.token is NewLine),
        normalize_step(seq![item]) == (Step { item, taken: 1 }),
    ensures
        normalized_stream(seq![item]) == seq![item],
{
    let s = seq![item];
    reveal_with_fuel(first_error, 3);
    reveal_with_fuel(cleaned, 3);
    reveal_with_fuel(normalized, 3);
    assert(s.skip(1) =~= Seq::<ItemView>::empty());
    assert(first_error(s) == 1);
    assert(until_error(s) == s);
    assert(cleaned(s) =~= s);
    assert(normalized(s) =~= s);
    assert(trimmed(s) == s);
}

/// What the three stages make of a stream whose first item the main stage
/// turns into an error: the error alone.
proof fn lemma_error_stream(s: Seq<ItemView>, error: ErrorView)
    requires
        s.len() > 0,
        forall|i: int| 0 <= i < s.len() ==> (#[trigger] s[i]) is Ok && !(s[i]->Ok_0.token
            is Comment),
        normalize_step(s).item == Err::<TokenWithRangeView, ErrorView>(error),
    ensures
        normalized_stream(s) == seq![Err::<TokenWithRangeView, ErrorView>(error)],
{
    lemma_all_tokens(s);
    let out = normalized(s);
    let e = Err::<TokenWithRangeView, ErrorView>(error);
    lemma_step_taken(s);
    assert(out[0] == e);
    reveal_with_fuel(first_error, 2);
    assert(first_error(out) == 0);
    assert(until_error(out) =~= seq![e]);
    assert(trimmed(seq![e]) == seq![e]);
    assert(seq![e].skip(1) =~= Seq::<ItemView>::empty());
    assert(until_error(seq![e]) =~= seq![e]);
}

/// A stream of tokens without comments is read whole and left as it is by
/// the stage that drops comments.
proof fn lemma_all_tokens(s: Seq<ItemView>)
    requires
        forall|i: int| 0 <= i < s.len() ==> (#[trigger] s[i]) is Ok && !(s[i]->Ok_0.token
            is Comment),
    ensures
        first_error(s) == s.len(),
        until_error(s) == s,
        cleaned(s) == s,
    decreases s.len(),
{
    if s.len() > 0 {
        assert(s[0] is Ok);
        assert forall|i: int| 0 <= i < s.skip(1).len() implies (#[trigger] s.skip(1)[i]) is Ok
            && !(s.skip(1)[i]->Ok_0.token is Comment) by {
            assert(s.skip(1)[i] == s[i + 1]);
        }
        lemma_all_tokens(s.skip(1));
        assert(seq![s[0]] + s.skip(1) =~= s);
    } else {
        assert(cleaned(s) =~= s);
    }
}

/// A literal of a signed integer type, alone in a document, is read
/// exactly if its number is not above the largest value of the type, and
/// then it is read as that number.
pub proof fn lemma_signed_literal(n: NumberTokenView, range: Location)
    requires
        n.signed_magnitude() is Some,
    ensures
        ({
            let document = parse_document(
                normalized_stream(seq![token_item(TokenView::Number(n), range)]),
            );
            &&& document is Ok <==> n.signed_magnitude()->0 <= n.signed_max()
            &&& document is Ok ==> document == Ok::<NodeView, ErrorView>(
                NodeView::Number(number_of(n)),
            ) && n.signed_value() == n.signed_magnitude()->0
        }),
{
    let item = token_item(TokenView::Number(n), range);
    let s = seq![item];
    if n.is_overflowed() {
        lemma_error_stream(s, ErrorView::MessageWithLocation(overflow_message(n), range));
    } else {
        lemma_single_token_stream(item);
        assert(s.skip(1) =~= Seq::<ItemView>::empty());
    }
}

/// A literal of a signed integer type with a minus sign in front, alone in
/// a document, is read exactly if the negative of its number is not below
/// the smallest value of the type, and then it is read as that negative.
pub proof fn lemma_negative_literal(n: NumberTokenView, sign: Location, range: Location)
    requires
        n.signed_magnitude() is Some,
    ensures
        ({
            let document = parse_document(
                normalized_stream(
                    seq![
                        token_item(TokenView::Minus, sign),
                        token_item(TokenView::Number(n), range),
                    ],
                ),
            );
            &&& document is Ok <==> -n.signed_magnitude()->0 >= -(n.signed_max() + 1)
            &&& document is Ok ==> document == Ok::<NodeView, ErrorView>(
                NodeView::Number(number_of(n.negated())),
            ) && n.negated().signed_value() == -n.signed_magnitude()->0
        }),
{
    let minus = token_item(TokenView::Minus, sign);
    let number = token_item(TokenView::Number(n), range);
    let s = seq![minus, number];
    assert(s.skip(1) =~= seq![number]);
    assert(s.skip(1)[0] == number);
    if n.can_negate() {
        let joined = token_item(TokenView::Number(n.negated()), sign.join(range));
        lemma_all_tokens(s);
        reveal_with_fuel(normalized, 3);
        reveal_with_fuel(first_error, 3);
        assert(s.skip(2) =~= Seq::<ItemView>::empty());
        assert(normalize_step(s) == (Step { item: joined, taken: 2 }));
        assert(normalized(s) =~= seq![joined]);
        let out = seq![joined];
        assert(out.skip(1) =~= Seq::<ItemView>::empty());
        assert(first_error(out) == 1);
        assert(until_error(out) == out);
        assert(trimmed(out) == out);
        assert(normalized_stream(s) == out);
    } else {
        lemma_error_stream(
            s,
            ErrorView::MessageWithLocation(negative_message(n), sign.join(range)),
        );
    }
}

/// A text that the lexer reads as one literal of a signed integer type is
/// a document exactly if the number is not above the largest value of the
/// type.
pub proof fn lemma_signed_literal_text(chars: Seq<char>, n: NumberTokenView, range: Location)
    requires
        lexed_text(chars) == seq![token_item(TokenView::Number(n), range)],
        n.signed_magnitude() is Some,
    ensures
        parse_text(chars) is Ok <==> n.signed_magnitude()->0 <= n.signed_max(),
        parse_text(chars) is Ok ==> parse_text(chars) == Ok::<NodeView, ErrorView>(
            NodeView::Number(number_of(n)),
        ),
{
    lemma_signed_literal(n, range);
}

/// A text that the lexer reads as a minus sign and one literal of a signed
/// integer type is a document exactly if the negative of the number is not
/// below the smallest value of the type.
pub proof fn lemma_negative_literal_text(
    chars: Seq<char>,
    n: NumberTokenView,
    sign: Location,
    range: Location,
)
    requires
        lexed_text(chars) == seq![
            token_item(TokenView::Minus, sign),
            token_item(TokenView::Number(n), range),
        ],
        n.signed_magnitude() is Some,
    ensures
        parse_text(chars) is Ok <==> -n.signed_magnitude()->0 >= -(n.signed_max() + 1),
        parse_text(chars) is Ok ==> parse_text(chars) == Ok::<NodeView, ErrorView>(
            NodeView::Number(number_of(n.negated())),
        ) && n.negated().signed_value() == -n.signed_magnitude()->0,
{
    lemma_negative_literal(n, sign, range);
}

} // verus!
