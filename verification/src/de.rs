use vstd::prelude::*;
use vstd::string::*;
use crate::ast::{convert_number, number_of, Number, NumberView};
use crate::error::{AsonError, ErrorView};
use crate::lexer::lexed_text;
use crate::location::Location;
use crate::normalizer::{is_newline, normalized_stream, normalized_tokens};
use crate::parser::{after_newline, after_separator, fail, Failure, Parser};
use crate::peekableiter::PeekableIter;
use crate::text::{chars_of, same_text};
use crate::token::{FloatLiteral, ItemView, NumberToken, NumberTokenView, Token, TokenView};

verus! {

/// The kinds of value that are written as one token.
#[derive(Debug, PartialEq, Eq, Clone, Copy, Structural)]
pub enum Primitive {
    Boolean,
    I8,
    I16,
    I32,
    I64,
    U8,
    U16,
    U32,
    U64,
    F32,
    F64,
    Char,
    String,
    Bytes,
    Identifier,
}

impl Primitive {
    /// Whether a token writes a value of the kind.
    pub open spec fn accepts(self, token: TokenView) -> bool {
        match self {
            Primitive::Boolean => token is Boolean,
            Primitive::I8 => token matches TokenView::Number(n) && n is I8,
            Primitive::I16 => token matches TokenView::Number(n) && n is I16,
            Primitive::I32 => token matches TokenView::Number(n) && n is I32,
            Primitive::I64 => token matches TokenView::Number(n) && n is I64,
            Primitive::U8 => token matches TokenView::Number(n) && n is U8,
            Primitive::U16 => token matches TokenView::Number(n) && n is U16,
            Primitive::U32 => token matches TokenView::Number(n) && n is U32,
            Primitive::U64 => token matches TokenView::Number(n) && n is U64,
            Primitive::F32 => token matches TokenView::Number(n) && n is F32,
            Primitive::F64 => token matches TokenView::Number(n) && n is F64,
            Primitive::Char => token is Char,
            Primitive::String => token is String,
            Primitive::Bytes => token is HexByteData,
            Primitive::Identifier => token is Identifier,
        }
    }

    /// The message for a token that writes no value of the kind.
    pub open spec fn message(self) -> Seq<char> {
        match self {
            Primitive::Boolean => "Expect a \"Boolean\" value."@,
            Primitive::I8 => "Expect an \"i8\" value."@,
            Primitive::I16 => "Expect an \"i16\" value."@,
            Primitive::I32 => "Expect an \"i32\" value."@,
            Primitive::I64 => "Expect an \"i64\" value."@,
            Primitive::U8 => "Expect an \"u8\" value."@,
            Primitive::U16 => "Expect an \"u16\" value."@,
            Primitive::U32 => "Expect an \"u32\" value."@,
            Primitive::U64 => "Expect an \"u64\" value."@,
            Primitive::F32 => "Expect a \"f32\" value."@,
            Primitive::F64 => "Expect a \"f64\" value."@,
            Primitive::Char => "Expect a \"Char\" value."@,
            Primitive::String => "Expect a \"String\" value."@,
            Primitive::Bytes => "Expect a \"Bytes\" value."@,
            Primitive::Identifier => "Expect an identifier for object."@,
        }
    }

    fn text(self) -> (r: &'static str)
        ensures
            r@ == self.message(),
    {
        match self {
            Primitive::Boolean => "Expect a \"Boolean\" value.",
            Primitive::I8 => "Expect an \"i8\" value.",
            Primitive::I16 => "Expect an \"i16\" value.",
            Primitive::I32 => "Expect an \"i32\" value.",
            Primitive::I64 => "Expect an \"i64\" value.",
            Primitive::U8 => "Expect an \"u8\" value.",
            Primitive::U16 => "Expect an \"u16\" value.",
            Primitive::U32 => "Expect an \"u32\" value.",
            Primitive::U64 => "Expect an \"u64\" value.",
            Primitive::F32 => "Expect a \"f32\" value.",
            Primitive::F64 => "Expect a \"f64\" value.",
            Primitive::Char => "Expect a \"Char\" value.",
            Primitive::String => "Expect a \"String\" value.",
            Primitive::Bytes => "Expect a \"Bytes\" value.",
            Primitive::Identifier => "Expect an identifier for object.",
        }
    }

    fn takes(self, token: &Token) -> (r: bool)
        ensures
            r == self.accepts(token@),
    {
        match (self, token) {
            (Primitive::Boolean, Token::Boolean(_)) => true,
            (Primitive::I8, Token::Number(NumberToken::I8(_))) => true,
            (Primitive::I16, Token::Number(NumberToken::I16(_))) => true,
            (Primitive::I32, Token::Number(NumberToken::I32(_))) => true,
            (Primitive::I64, Token::Number(NumberToken::I64(_))) => true,
            (Primitive::U8, Token::Number(NumberToken::U8(_))) => true,
            (Primitive::U16, Token::Number(NumberToken::U16(_))) => true,
            (Primitive::U32, Token::Number(NumberToken::U32(_))) => true,
            (Primitive::U64, Token::Number(NumberToken::U64(_))) => true,
            (Primitive::F32, Token::Number(NumberToken::F32(_))) => true,
            (Primitive::F64, Token::Number(NumberToken::F64(_))) => true,
            (Primitive::Char, Token::Char(_)) => true,
            (Primitive::String, Token::String(_)) => true,
            (Primitive::Bytes, Token::HexByteData(_)) => true,
            (Primitive::Identifier, Token::Identifier(_)) => true,
            _ => false,
        }
    }
}

/// What taking one token that has to meet `wanted` gives: the token and
/// the stream behind it; an error at the start of a token that does not
/// meet it, which is taken all the same; an error without a place where
/// the stream is empty.
pub open spec fn expect_item(
    s: Seq<ItemView>,
    wanted: spec_fn(TokenView) -> bool,
    message: Seq<char>,
) -> Result<(TokenView, Seq<ItemView>), Failure> {
    if s.len() == 0 {
        fail(ErrorView::UnexpectedEndOfDocument(message), s)
    } else {
        match s[0] {
            Err(e) => fail(e, s.skip(1)),
            Ok(t) => if wanted(t.token) {
                Ok((t.token, s.skip(1)))
            } else {
                fail(ErrorView::MessageWithLocation(message, t.range.start()), s.skip(1))
            },
        }
    }
}

/// What reading a value of a kind that is written as one token gives.
pub open spec fn expect_primitive(s: Seq<ItemView>, kind: Primitive) -> Result<
    (TokenView, Seq<ItemView>),
    Failure,
> {
    expect_item(s, |t: TokenView| kind.accepts(t), kind.message())
}

/// What an option begins with.
#[derive(Debug, PartialEq, Eq, Clone, Copy, Structural)]
pub enum OptionStart {
    /// `Option::None`: the option holds nothing, and is read.
    Nothing,
    /// `Option::Some(`: the value comes next, and a closing parenthesis
    /// behind it.
    Something,
}

/// What reading the start of an option gives.
///
/// The next token has to be a variant of the type `Option`: `None` with
/// no parenthesis behind it, or `Some` with an opening parenthesis behind
/// it, which is taken too. Another member, `None` with a parenthesis or
/// `Some` without one are an error at the token behind the variant, or at
/// the variant where nothing is behind it.
pub open spec fn option_start(s: Seq<ItemView>) -> Result<(OptionStart, Seq<ItemView>), Failure> {
    let message = "Expect the \"Option\" type of variant."@;
    if s.len() == 0 {
        fail(ErrorView::UnexpectedEndOfDocument(message), s)
    } else {
        match s[0] {
            Err(e) => fail(e, s.skip(1)),
            Ok(t) => match t.token {
                TokenView::Variant(variant_type, member_name) => {
                    if variant_type != "Option"@ {
                        fail(ErrorView::MessageWithLocation(message, t.range), s.skip(1))
                    } else if s.len() > 1 && s[1] is Err {
                        fail(s[1]->Err_0, s.skip(1))
                    } else {
                        let paren = s.len() > 1 && s[1]->Ok_0.token is LeftParen;
                        if member_name == "None"@ && !paren {
                            Ok((OptionStart::Nothing, s.skip(1)))
                        } else if member_name == "Some"@ && paren {
                            Ok((OptionStart::Something, s.skip(2)))
                        } else {
                            fail(
                                ErrorView::MessageWithLocation(
                                    "Invalid member of variant \"Option\"."@,
                                    if s.len() > 1 {
                                        s[1]->Ok_0.range
                                    } else {
                                        t.range
                                    },
                                ),
                                s.skip(1),
                            )
                        }
                    }
                },
                _ => fail(ErrorView::MessageWithLocation(message, t.range.start()), s.skip(1)),
            },
        }
    }
}

/// How the value of a variant is written.
#[derive(Debug, PartialEq, Eq, Clone, Copy, Structural)]
pub enum VariantStyle {
    /// Nothing follows the variant.
    Unit,
    /// `(` follows: one value or a tuple.
    Parenthesized,
    /// `{` follows: an object.
    Braced,
}

/// The message for a variant of another type than the expected one.
pub open spec fn variant_type_message(name: Seq<char>) -> Seq<char> {
    "Expect the type \""@ + name + "\" of variant."@
}

/// What reading the start of a variant of the type `name` gives: the name
/// of the member, how its value is written, and the stream behind the
/// variant token.
pub open spec fn variant_start(s: Seq<ItemView>, name: Seq<char>) -> Result<
    (Seq<char>, VariantStyle, Seq<ItemView>),
    Failure,
> {
    let message = "Expect a \"Variant\"."@;
    if s.len() == 0 {
        fail(ErrorView::UnexpectedEndOfDocument(message), s)
    } else {
        match s[0] {
            Err(e) => fail(e, s.skip(1)),
            Ok(t) => match t.token {
                TokenView::Variant(variant_type, member_name) => {
                    if variant_type != name {
                        fail(
                            ErrorView::MessageWithLocation(variant_type_message(name), t.range),
                            s.skip(1),
                        )
                    } else if s.len() > 1 && s[1] is Err {
                        fail(s[1]->Err_0, s.skip(1))
                    } else if s.len() > 1 && s[1]->Ok_0.token is LeftParen {
                        Ok((member_name, VariantStyle::Parenthesized, s.skip(1)))
                    } else if s.len() > 1 && s[1]->Ok_0.token is LeftBrace {
                        Ok((member_name, VariantStyle::Braced, s.skip(1)))
                    } else {
                        Ok((member_name, VariantStyle::Unit, s.skip(1)))
                    }
                },
                _ => fail(ErrorView::MessageWithLocation(message, t.range.start()), s.skip(1)),
            },
        }
    }
}

/// What asking for the next element of a bracketed construct gives:
/// whether one comes, and the stream before it or before the closing
/// token.
///
/// Before the first element a line break may stand; before every other a
/// comma or a line break has to. Where `closer` is given, it ends the
/// elements; the end of the stream in their place is an error. An error
/// leaves the stream behind the separator that was taken, and as it was
/// where none was: the element that lacks its separator is not taken.
pub open spec fn next_element(
    s: Seq<ItemView>,
    first: bool,
    closer: Option<TokenView>,
    incomplete: Seq<char>,
) -> Result<(bool, Seq<ItemView>), Failure> {
    let separated = if first {
        match after_newline(s) {
            Err(e) => Err(e),
            Ok(rest) => Ok((rest.len() < s.len(), rest)),
        }
    } else {
        match after_separator(s) {
            Err(e) => Err(e),
            Ok(None) => Ok((false, s)),
            Ok(Some(rest)) => Ok((true, rest)),
        }
    };
    match separated {
        Err(e) => Err(e),
        Ok((found, rest)) => {
            if rest.len() > 0 && rest[0] is Err {
                fail(rest[0]->Err_0, rest)
            } else if rest.len() > 0 && closer == Some(rest[0]->Ok_0.token) {
                Ok((false, rest))
            } else if rest.len() == 0 {
                fail(ErrorView::UnexpectedEndOfDocument(incomplete), rest)
            } else if !first && !found {
                fail(
                    ErrorView::MessageWithLocation(
                        "Expect a comma or new-line."@,
                        rest[0]->Ok_0.range.start(),
                    ),
                    rest,
                )
            } else {
                Ok((true, rest))
            }
        },
    }
}

/// The stream behind the token `expected`, where the stream begins with
/// it; an error at the start of another token, which is taken all the
/// same, or without a place at the end of the stream.
pub open spec fn after_expected(s: Seq<ItemView>, expected: TokenView, description: Seq<char>)
    -> Result<Seq<ItemView>, Failure> {
    if s.len() == 0 {
        fail(ErrorView::UnexpectedEndOfDocument("Expect token: \""@ + description + "\"."@), s)
    } else {
        match s[0] {
            Err(e) => fail(e, s.skip(1)),
            Ok(t) => if t.token == expected {
                Ok(s.skip(1))
            } else {
                fail(
                    ErrorView::MessageWithLocation(
                        "Expect token: "@ + description + "."@,
                        t.range.start(),
                    ),
                    s.skip(1),
                )
            },
        }
    }
}

/// The stream behind the colon between a key and its value, with a line
/// break before the colon or behind it or both or neither.
pub open spec fn after_colon(s: Seq<ItemView>) -> Result<Seq<ItemView>, Failure> {
    match after_newline(s) {
        Err(e) => Err(e),
        Ok(s1) => match after_expected(s1, TokenView::Colon, "colon sign"@) {
            Err(e) => Err(e),
            Ok(s2) => after_newline(s2),
        },
    }
}

/// The stream behind the closing parenthesis of a tuple, with a comma or a
/// line break before it or neither.
pub open spec fn after_tuple(s: Seq<ItemView>) -> Result<Seq<ItemView>, Failure> {
    match after_separator(s) {
        Err(e) => Err(e),
        Ok(found) => after_expected(
            match found {
                Some(rest) => rest,
                None => s,
            },
            TokenView::RightParen,
            "close parenthese \")\""@,
        ),
    }
}

/// The stream before the one value of a variant: behind the opening
/// parenthesis and a line break, if one is there.
pub open spec fn before_variant_value(s: Seq<ItemView>) -> Result<Seq<ItemView>, Failure> {
    match after_expected(s, TokenView::LeftParen, "open parenthese \"(\""@) {
        Err(e) => Err(e),
        Ok(rest) => after_newline(rest),
    }
}

/// The stream behind the one value of a variant: behind a line break, if
/// one is there, and the closing parenthesis.
pub open spec fn after_variant_value(s: Seq<ItemView>) -> Result<Seq<ItemView>, Failure> {
    match after_newline(s) {
        Err(e) => Err(e),
        Ok(rest) => after_expected(rest, TokenView::RightParen, "close parenthese \")\""@),
    }
}

/// What is left of a document that was read: nothing, or an error at the
/// first token that is left.
pub open spec fn document_end(s: Seq<ItemView>) -> Result<(), ErrorView> {
    if s.len() == 0 {
        Ok(())
    } else {
        match s[0] {
            Err(e) => Err(e),
            Ok(t) => Err(
                ErrorView::MessageWithLocation(
                    "Document has more than one node."@,
                    t.range.start(),
                ),
            ),
        }
    }
}

/// Whether a step gave what was expected of it and left the expected
/// stream.
pub open spec fn step_outcome<T>(
    r: Result<T, AsonError>,
    left: Seq<ItemView>,
    expected: Result<(T, Seq<ItemView>), Failure>,
) -> bool {
    match expected {
        Err(f) => r matches Err(x) && x@ == f.error && left == f.left,
        Ok((value, rest)) => r == Ok::<T, AsonError>(value) && left == rest,
    }
}

/// Whether a step succeeded as expected and left the expected stream.
pub open spec fn move_outcome(
    r: Result<(), AsonError>,
    left: Seq<ItemView>,
    expected: Result<Seq<ItemView>, Failure>,
) -> bool {
    match expected {
        Err(f) => r matches Err(x) && x@ == f.error && left == f.left,
        Ok(rest) => r is Ok && left == rest,
    }
}

/// The driver of a decoder: it reads the tokens of a document step by
/// step, as the shape of the value that is wanted asks.
///
/// Every step reads what one request for a part of the value needs from
/// the stream, and says what it found or why it failed. The code that
/// knows the shape of the value makes the requests.
pub struct Deserializer {
    cursor: Parser,
}

impl Deserializer {
    /// The items that are still to read.
    pub closed spec fn remaining(&self) -> Seq<ItemView> {
        self.cursor.remaining()
    }

    /// The range of the token that was read last.
    pub closed spec fn last_range(&self) -> Location {
        self.cursor.last_range()
    }

    /// A driver at the start of a stream of tokens.
    pub fn from_token_peekable_iter(upstream: PeekableIter) -> (r: Deserializer)
        ensures
            r.remaining() == upstream.remaining(),
    {
        Deserializer { cursor: Parser::new(upstream) }
    }

    /// Takes the next token.
    pub fn next_token(&mut self) -> (r: Result<Option<Token>, AsonError>)
        ensures
            old(self).remaining().len() == 0 ==> (r matches Ok(None) && final(self).remaining()
                == old(self).remaining() && final(self).last_range() == old(self).last_range()),
            old(self).remaining().len() > 0 ==> final(self).remaining() == old(self).remaining().skip(1) && (match old(self).remaining()[0] {
                Err(e) => r matches Err(x) && x@ == e,
                Ok(t) => r matches Ok(Some(token)) && token@ == t.token && final(self).last_range() == t.range,
            }),
    {
        self.cursor.next_token()
    }

    /// Shows the range of the token that is `offset` items ahead.
    pub fn peek_range(&self, offset: usize) -> (r: Result<Option<Location>, AsonError>)
        ensures
            self.remaining().len() <= usize::MAX,
            offset >= self.remaining().len() ==> (r matches Ok(None)),
            offset < self.remaining().len() ==> (match self.remaining()[offset as int] {
                Err(e) => r matches Err(x) && x@ == e,
                Ok(t) => r matches Ok(Some(range)) && range == t.range,
            }),
    {
        self.cursor.peek_range(offset)
    }

    /// Shows the token that is `offset` items ahead.
    pub fn peek_token(&self, offset: usize) -> (r: Result<Option<&Token>, AsonError>)
        ensures
            self.remaining().len() <= usize::MAX,
            offset >= self.remaining().len() ==> (r matches Ok(None)),
            offset < self.remaining().len() ==> (match self.remaining()[offset as int] {
                Err(e) => r matches Err(x) && x@ == e,
                Ok(t) => r matches Ok(Some(token)) && token@ == t.token,
            }),
    {
        self.cursor.peek_token(offset)
    }

    /// Whether the token that is `offset` items ahead is `expected_token`.
    pub fn expect_token(&self, offset: usize, expected_token: &Token) -> (r: Result<
        bool,
        AsonError,
    >)
        ensures
            self.remaining().len() <= usize::MAX,
            offset >= self.remaining().len() ==> (r matches Ok(false)),
            offset < self.remaining().len() ==> (match self.remaining()[offset as int] {
                Err(e) => r matches Err(x) && x@ == e,
                Ok(t) => r matches Ok(b) && b == (t.token == expected_token@),
            }),
    {
        self.cursor.expect_token(offset, expected_token)
    }

    /// Takes a line break, if one comes next.
    pub fn consume_new_line_if_exist(&mut self) -> (r: Result<bool, AsonError>)
        ensures
            match after_newline(old(self).remaining()) {
                Err(f) => r matches Err(x) && x@ == f.error && final(self).remaining() == f.left,
                Ok(rest) => r matches Ok(found) && final(self).remaining() == rest && found == (
                old(self).remaining().len() > 0 && is_newline(old(self).remaining()[0])),
            },
    {
        self.cursor.consume_new_line_if_exist()
    }

    /// Takes a line break or a comma, if one comes next.
    pub fn consume_new_line_or_comma_if_exist(&mut self) -> (r: Result<bool, AsonError>)
        ensures
            match after_separator(old(self).remaining()) {
                Err(f) => r matches Err(x) && x@ == f.error && final(self).remaining() == f.left,
                Ok(None) => r matches Ok(false) && final(self).remaining() == old(self).remaining(),
                Ok(Some(rest)) => r matches Ok(true) && final(self).remaining() == rest,
            },
    {
        self.cursor.consume_new_line_or_comma_if_exist()
    }

    /// Takes the next token, which has to be `expected_token`.
    pub fn consume_token(&mut self, expected_token: &Token, token_description: &str) -> (r: Result<
        (),
        AsonError,
    >)
        ensures
            move_outcome(
                r,
                final(self).remaining(),
                after_expected(old(self).remaining(), expected_token@, token_description@),
            ),
    {
        match self.cursor.next_token()? {
            Some(token) => {
                if token.equals(expected_token) {
                    Ok(())
                } else {
                    let mut message = String::from_str("Expect token: ");
                    message.append(token_description);
                    message.append(".");
                    Err(
                        AsonError::MessageWithLocation(
                            message,
                            self.cursor.last_token_range().get_position_by_range_start(),
                        ),
                    )
                }
            },
            None => {
                let mut message = String::from_str("Expect token: \"");
                message.append(token_description);
                message.append("\".");
                Err(AsonError::UnexpectedEndOfDocument(message))
            },
        }
    }

    /// Takes the closing parenthesis `)`.
    pub fn consume_right_paren(&mut self) -> (r: Result<(), AsonError>)
        ensures
            move_outcome(
                r,
                final(self).remaining(),
                after_expected(
                    old(self).remaining(),
                    TokenView::RightParen,
                    "close parenthese \")\""@,
                ),
            ),
    {
        self.consume_token(&Token::RightParen, "close parenthese \")\"")
    }

    /// Takes the closing bracket `]`.
    pub fn consume_right_bracket(&mut self) -> (r: Result<(), AsonError>)
        ensures
            move_outcome(
                r,
                final(self).remaining(),
                after_expected(
                    old(self).remaining(),
                    TokenView::RightBracket,
                    "close bracket \"]\""@,
                ),
            ),
    {
        self.consume_token(&Token::RightBracket, "close bracket \"]\"")
    }

    /// Takes the closing brace `}`.
    pub fn consume_right_brace(&mut self) -> (r: Result<(), AsonError>)
        ensures
            move_outcome(
                r,
                final(self).remaining(),
                after_expected(
                    old(self).remaining(),
                    TokenView::RightBrace,
                    "close brace \"}\""@,
                ),
            ),
    {
        self.consume_token(&Token::RightBrace, "close brace \"}\"")
    }

    /// Takes the colon `:`.
    pub fn consume_colon(&mut self) -> (r: Result<(), AsonError>)
        ensures
            move_outcome(
                r,
                final(self).remaining(),
                after_expected(old(self).remaining(), TokenView::Colon, "colon sign"@),
            ),
    {
        self.consume_token(&Token::Colon, "colon sign")
    }

    /// Takes one token, which has to write a value of the kind.
    fn take_primitive(&mut self, kind: Primitive) -> (r: Result<Token, AsonError>)
        ensures
            match expect_primitive(old(self).remaining(), kind) {
                Err(f) => r matches Err(x) && x@ == f.error && final(self).remaining() == f.left,
                Ok((token, rest)) => r matches Ok(found) && found@ == token && kind.accepts(token)
                    && final(self).remaining() == rest,
            },
    {
        match self.cursor.next_token()? {
            Some(token) => {
                if kind.takes(&token) {
                    Ok(token)
                } else {
                    Err(
                        AsonError::at(
                            kind.text(),
                            self.cursor.last_token_range().get_position_by_range_start(),
                        ),
                    )
                }
            },
            None => Err(AsonError::end_of_document(kind.text())),
        }
    }

    /// Reads a boolean.
    pub fn deserialize_bool(&mut self) -> (r: Result<bool, AsonError>)
        ensures
            match expect_primitive(old(self).remaining(), Primitive::Boolean) {
                Err(f) => r matches Err(x) && x@ == f.error && final(self).remaining() == f.left,
                Ok((token, rest)) => r == Ok::<bool, AsonError>(token->Boolean_0) && final(self).remaining() == rest,
            },
    {
        match self.take_primitive(Primitive::Boolean)? {
            Token::Boolean(v) => Ok(v),
            _ => Err(AsonError::end_of_document(Primitive::Boolean.text())),
        }
    }

    /// Reads a number of one bucket.
    fn take_number(&mut self, kind: Primitive) -> (r: Result<Number, AsonError>)
        requires
            kind is I8 || kind is I16 || kind is I32 || kind is I64 || kind is U8 || kind is U16
                || kind is U32 || kind is U64 || kind is F32 || kind is F64,
        ensures
            match expect_primitive(old(self).remaining(), kind) {
                Err(f) => r matches Err(x) && x@ == f.error && final(self).remaining() == f.left,
                Ok((token, rest)) => r matches Ok(number) && token matches TokenView::Number(n)
                    && kind.accepts(token) && number@ == number_of(n) && final(self).remaining()
                    == rest,
            },
    {
        match self.take_primitive(kind)? {
            Token::Number(n) => Ok(convert_number(&n)),
            _ => Err(AsonError::end_of_document(kind.text())),
        }
    }

    /// Reads an `i8`.
    pub fn deserialize_i8(&mut self) -> (r: Result<i8, AsonError>)
        ensures
            match expect_primitive(old(self).remaining(), Primitive::I8) {
                Err(f) => r matches Err(x) && x@ == f.error && final(self).remaining() == f.left,
                Ok((token, rest)) => r matches Ok(v) && number_of(token->Number_0)
                    == NumberView::I8(v) && final(self).remaining() == rest,
            },
    {
        match self.take_number(Primitive::I8)? {
            Number::I8(v) => Ok(v),
            _ => Err(AsonError::end_of_document(Primitive::I8.text())),
        }
    }

    /// Reads an `i16`.
    pub fn deserialize_i16(&mut self) -> (r: Result<i16, AsonError>)
        ensures
            match expect_primitive(old(self).remaining(), Primitive::I16) {
                Err(f) => r matches Err(x) && x@ == f.error && final(self).remaining() == f.left,
                Ok((token, rest)) => r matches Ok(v) && number_of(token->Number_0)
                    == NumberView::I16(v) && final(self).remaining() == rest,
            },
    {
        match self.take_number(Primitive::I16)? {
            Number::I16(v) => Ok(v),
            _ => Err(AsonError::end_of_document(Primitive::I16.text())),
        }
    }

    /// Reads an `i32`.
    pub fn deserialize_i32(&mut self) -> (r: Result<i32, AsonError>)
        ensures
            match expect_primitive(old(self).remaining(), Primitive::I32) {
                Err(f) => r matches Err(x) && x@ == f.error && final(self).remaining() == f.left,
                Ok((token, rest)) => r matches Ok(v) && number_of(token->Number_0)
                    == NumberView::I32(v) && final(self).remaining() == rest,
            },
    {
        match self.take_number(Primitive::I32)? {
            Number::I32(v) => Ok(v),
            _ => Err(AsonError::end_of_document(Primitive::I32.text())),
        }
    }

    /// Reads an `i64`.
    pub fn deserialize_i64(&mut self) -> (r: Result<i64, AsonError>)
        ensures
            match expect_primitive(old(self).remaining(), Primitive::I64) {
                Err(f) => r matches Err(x) && x@ == f.error && final(self).remaining() == f.left,
                Ok((token, rest)) => r matches Ok(v) && number_of(token->Number_0)
                    == NumberView::I64(v) && final(self).remaining() == rest,
            },
    {
        match self.take_number(Primitive::I64)? {
            Number::I64(v) => Ok(v),
            _ => Err(AsonError::end_of_document(Primitive::I64.text())),
        }
    }

    /// Reads a `u8`.
    pub fn deserialize_u8(&mut self) -> (r: Result<u8, AsonError>)
        ensures
            match expect_primitive(old(self).remaining(), Primitive::U8) {
                Err(f) => r matches Err(x) && x@ == f.error && final(self).remaining() == f.left,
                Ok((token, rest)) => r matches Ok(v) && number_of(token->Number_0)
                    == NumberView::U8(v) && final(self).remaining() == rest,
            },
    {
        match self.take_number(Primitive::U8)? {
            Number::U8(v) => Ok(v),
            _ => Err(AsonError::end_of_document(Primitive::U8.text())),
        }
    }

    /// Reads a `u16`.
    pub fn deserialize_u16(&mut self) -> (r: Result<u16, AsonError>)
        ensures
            match expect_primitive(old(self).remaining(), Primitive::U16) {
                Err(f) => r matches Err(x) && x@ == f.error && final(self).remaining() == f.left,
                Ok((token, rest)) => r matches Ok(v) && number_of(token->Number_0)
                    == NumberView::U16(v) && final(self).remaining() == rest,
            },
    {
        match self.take_number(Primitive::U16)? {
            Number::U16(v) => Ok(v),
            _ => Err(AsonError::end_of_document(Primitive::U16.text())),
        }
    }

    /// Reads a `u32`.
    pub fn deserialize_u32(&mut self) -> (r: Result<u32, AsonError>)
        ensures
            match expect_primitive(old(self).remaining(), Primitive::U32) {
                Err(f) => r matches Err(x) && x@ == f.error && final(self).remaining() == f.left,
                Ok((token, rest)) => r matches Ok(v) && number_of(token->Number_0)
                    == NumberView::U32(v) && final(self).remaining() == rest,
            },
    {
        match self.take_number(Primitive::U32)? {
            Number::U32(v) => Ok(v),
            _ => Err(AsonError::end_of_document(Primitive::U32.text())),
        }
    }

    /// Reads a `u64`.
    pub fn deserialize_u64(&mut self) -> (r: Result<u64, AsonError>)
        ensures
            match expect_primitive(old(self).remaining(), Primitive::U64) {
                Err(f) => r matches Err(x) && x@ == f.error && final(self).remaining() == f.left,
                Ok((token, rest)) => r matches Ok(v) && number_of(token->Number_0)
                    == NumberView::U64(v) && final(self).remaining() == rest,
            },
    {
        match self.take_number(Primitive::U64)? {
            Number::U64(v) => Ok(v),
            _ => Err(AsonError::end_of_document(Primitive::U64.text())),
        }
    }

    /// Reads a floating-point number of the bucket `f32`, as the literal
    /// that was written.
    pub fn deserialize_f32(&mut self) -> (r: Result<FloatLiteral, AsonError>)
        ensures
            match expect_primitive(old(self).remaining(), Primitive::F32) {
                Err(f) => r matches Err(x) && x@ == f.error && final(self).remaining() == f.left,
                Ok((token, rest)) => r matches Ok(v) && token->Number_0 == NumberTokenView::F32(v@)
                    && final(self).remaining() == rest,
            },
    {
        match self.take_number(Primitive::F32)? {
            Number::F32(v) => Ok(v),
            _ => Err(AsonError::end_of_document(Primitive::F32.text())),
        }
    }

    /// Reads a floating-point number of the bucket `f64`, as the literal
    /// that was written.
    pub fn deserialize_f64(&mut self) -> (r: Result<FloatLiteral, AsonError>)
        ensures
            match expect_primitive(old(self).remaining(), Primitive::F64) {
                Err(f) => r matches Err(x) && x@ == f.error && final(self).remaining() == f.left,
                Ok((token, rest)) => r matches Ok(v) && token->Number_0 == NumberTokenView::F64(v@)
                    && final(self).remaining() == rest,
            },
    {
        match self.take_number(Primitive::F64)? {
            Number::F64(v) => Ok(v),
            _ => Err(AsonError::end_of_document(Primitive::F64.text())),
        }
    }

    /// Reads a character.
    pub fn deserialize_char(&mut self) -> (r: Result<char, AsonError>)
        ensures
            match expect_primitive(old(self).remaining(), Primitive::Char) {
                Err(f) => r matches Err(x) && x@ == f.error && final(self).remaining() == f.left,
                Ok((token, rest)) => r == Ok::<char, AsonError>(token->Char_0) && final(self).remaining() == rest,
            },
    {
        match self.take_primitive(Primitive::Char)? {
            Token::Char(v) => Ok(v),
            _ => Err(AsonError::end_of_document(Primitive::Char.text())),
        }
    }

    /// Reads a string.
    pub fn deserialize_string(&mut self) -> (r: Result<String, AsonError>)
        ensures
            match expect_primitive(old(self).remaining(), Primitive::String) {
                Err(f) => r matches Err(x) && x@ == f.error && final(self).remaining() == f.left,
                Ok((token, rest)) => r matches Ok(v) && v@ == token->String_0 && final(self).remaining() == rest,
            },
    {
        match self.take_primitive(Primitive::String)? {
            Token::String(v) => Ok(v),
            _ => Err(AsonError::end_of_document(Primitive::String.text())),
        }
    }

    /// Reads a string; the same as [`Deserializer::deserialize_string`].
    pub fn deserialize_str(&mut self) -> (r: Result<String, AsonError>)
        ensures
            match expect_primitive(old(self).remaining(), Primitive::String) {
                Err(f) => r matches Err(x) && x@ == f.error && final(self).remaining() == f.left,
                Ok((token, rest)) => r matches Ok(v) && v@ == token->String_0 && final(self).remaining() == rest,
            },
    {
        self.deserialize_string()
    }

    /// Reads byte data.
    pub fn deserialize_byte_buf(&mut self) -> (r: Result<Vec<u8>, AsonError>)
        ensures
            match expect_primitive(old(self).remaining(), Primitive::Bytes) {
                Err(f) => r matches Err(x) && x@ == f.error && final(self).remaining() == f.left,
                Ok((token, rest)) => r matches Ok(v) && v@ == token->HexByteData_0 && final(self).remaining() == rest,
            },
    {
        match self.take_primitive(Primitive::Bytes)? {
            Token::HexByteData(v) => Ok(v),
            _ => Err(AsonError::end_of_document(Primitive::Bytes.text())),
        }
    }

    /// Reads byte data; the same as [`Deserializer::deserialize_byte_buf`].
    pub fn deserialize_bytes(&mut self) -> (r: Result<Vec<u8>, AsonError>)
        ensures
            match expect_primitive(old(self).remaining(), Primitive::Bytes) {
                Err(f) => r matches Err(x) && x@ == f.error && final(self).remaining() == f.left,
                Ok((token, rest)) => r matches Ok(v) && v@ == token->HexByteData_0 && final(self).remaining() == rest,
            },
    {
        self.deserialize_byte_buf()
    }

    /// Reads the key of an entry of an object.
    pub fn deserialize_identifier(&mut self) -> (r: Result<String, AsonError>)
        ensures
            match expect_primitive(old(self).remaining(), Primitive::Identifier) {
                Err(f) => r matches Err(x) && x@ == f.error && final(self).remaining() == f.left,
                Ok((token, rest)) => r matches Ok(v) && v@ == token->Identifier_0 && final(self).remaining() == rest,
            },
    {
        match self.take_primitive(Primitive::Identifier)? {
            Token::Identifier(v) => Ok(v),
            _ => Err(AsonError::end_of_document(Primitive::Identifier.text())),
        }
    }

    /// Reads the start of an option. Behind `OptionStart::Something` the
    /// value is to be read, and then the closing parenthesis with
    /// [`Deserializer::consume_right_paren`].
    pub fn deserialize_option(&mut self) -> (r: Result<OptionStart, AsonError>)
        ensures
            step_outcome(r, final(self).remaining(), option_start(old(self).remaining())),
    {
        let message = "Expect the \"Option\" type of variant.";
        match self.cursor.next_token()? {
            Some(Token::Variant(variant_type, member_name)) => {
                let variant_range = self.cursor.last_token_range();
                if !same_text(variant_type.as_str(), "Option") {
                    return Err(AsonError::at(message, variant_range));
                }
                let paren = self.cursor.expect_token(0, &Token::LeftParen)?;
                if same_text(member_name.as_str(), "None") && !paren {
                    Ok(OptionStart::Nothing)
                } else if same_text(member_name.as_str(), "Some") && paren {
                    self.cursor.next_token()?;
                    assert(self.remaining() =~= old(self).remaining().skip(2));
                    Ok(OptionStart::Something)
                } else {
                    let range = match self.cursor.peek_range(0)? {
                        Some(range) => range,
                        None => variant_range,
                    };
                    Err(AsonError::at("Invalid member of variant \"Option\".", range))
                }
            },
            Some(_) => Err(
                AsonError::at(
                    message,
                    self.cursor.last_token_range().get_position_by_range_start(),
                ),
            ),
            None => Err(AsonError::end_of_document(message)),
        }
    }

    /// A value of the unit type is not supported.
    pub fn deserialize_unit(&self) -> (r: AsonError)
        ensures
            r@ == ErrorView::Message("Does not support Unit."@),
    {
        AsonError::plain("Does not support Unit.")
    }

    /// A struct without fields is not supported.
    pub fn deserialize_unit_struct(&self) -> (r: AsonError)
        ensures
            r@ == ErrorView::Message("Does not support \"Unit\" style Struct."@),
    {
        AsonError::plain("Does not support \"Unit\" style Struct.")
    }

    /// A struct around one unnamed value is not supported.
    pub fn deserialize_newtype_struct(&self) -> (r: AsonError)
        ensures
            r@ == ErrorView::Message("Does not support \"New-Type\" style Struct."@),
    {
        AsonError::plain("Does not support \"New-Type\" style Struct.")
    }

    /// A struct of unnamed values is not supported.
    pub fn deserialize_tuple_struct(&self) -> (r: AsonError)
        ensures
            r@ == ErrorView::Message("Does not support \"Tuple\" style Struct."@),
    {
        AsonError::plain("Does not support \"Tuple\" style Struct.")
    }

    /// A value whose kind the document has to tell is not supported: the
    /// request is an error at the start of the token that was read last.
    pub fn deserialize_any(&self) -> (r: AsonError)
        ensures
            r@ == ErrorView::MessageWithLocation("Unexpected value."@, self.last_range().start()),
    {
        AsonError::at("Unexpected value.", self.cursor.last_token_range().get_position_by_range_start())
    }

    /// Takes the token that opens a construct.
    fn open(&mut self, opener: &Token, message: &str) -> (r: Result<(), AsonError>)
        ensures
            match expect_item(
                old(self).remaining(),
                |t: TokenView| t == opener@,
                message@,
            ) {
                Err(f) => r matches Err(x) && x@ == f.error && final(self).remaining() == f.left,
                Ok((_, rest)) => r is Ok && final(self).remaining() == rest,
            },
    {
        match self.cursor.next_token()? {
            Some(token) => {
                if token.equals(opener) {
                    Ok(())
                } else {
                    Err(
                        AsonError::at(
                            message,
                            self.cursor.last_token_range().get_position_by_range_start(),
                        ),
                    )
                }
            },
            None => Err(AsonError::end_of_document(message)),
        }
    }

    /// Reads the opening bracket of a list. The elements are asked for
    /// with an [`ArrayAccessor`], and the closing bracket is read with
    /// [`Deserializer::consume_right_bracket`].
    pub fn deserialize_seq(&mut self) -> (r: Result<(), AsonError>)
        ensures
            match expect_item(
                old(self).remaining(),
                |t: TokenView| t == TokenView::LeftBracket,
                "Expect a \"List\"."@,
            ) {
                Err(f) => r matches Err(x) && x@ == f.error && final(self).remaining() == f.left,
                Ok((_, rest)) => r is Ok && final(self).remaining() == rest,
            },
    {
        self.open(&Token::LeftBracket, "Expect a \"List\".")
    }

    /// Reads the opening parenthesis of a tuple. The elements are asked
    /// for with a [`TupleAccessor`], and the end of the tuple is read with
    /// [`Deserializer::end_tuple`].
    pub fn deserialize_tuple(&mut self) -> (r: Result<(), AsonError>)
        ensures
            match expect_item(
                old(self).remaining(),
                |t: TokenView| t == TokenView::LeftParen,
                "Expect a \"Tuple\"."@,
            ) {
                Err(f) => r matches Err(x) && x@ == f.error && final(self).remaining() == f.left,
                Ok((_, rest)) => r is Ok && final(self).remaining() == rest,
            },
    {
        self.open(&Token::LeftParen, "Expect a \"Tuple\".")
    }

    /// Reads the end of a tuple behind its last element: a comma or a line
    /// break, if one is there, and the closing parenthesis.
    pub fn end_tuple(&mut self) -> (r: Result<(), AsonError>)
        ensures
            move_outcome(r, final(self).remaining(), after_tuple(old(self).remaining())),
    {
        self.cursor.consume_new_line_or_comma_if_exist()?;
        self.consume_right_paren()
    }

    /// Reads the opening bracket of a map. The entries are asked for with
    /// a [`MapAccessor`], and the closing bracket is read with
    /// [`Deserializer::consume_right_bracket`].
    pub fn deserialize_map(&mut self) -> (r: Result<(), AsonError>)
        ensures
            match expect_item(
                old(self).remaining(),
                |t: TokenView| t == TokenView::LeftBracket,
                "Expect a \"Map\"."@,
            ) {
                Err(f) => r matches Err(x) && x@ == f.error && final(self).remaining() == f.left,
                Ok((_, rest)) => r is Ok && final(self).remaining() == rest,
            },
    {
        self.open(&Token::LeftBracket, "Expect a \"Map\".")
    }

    /// Reads the opening brace of an object. The entries are asked for
    /// with an [`ObjectAccessor`], and the closing brace is read with
    /// [`Deserializer::consume_right_brace`].
    pub fn deserialize_struct(&mut self) -> (r: Result<(), AsonError>)
        ensures
            match expect_item(
                old(self).remaining(),
                |t: TokenView| t == TokenView::LeftBrace,
                "Expect an \"Object\"."@,
            ) {
                Err(f) => r matches Err(x) && x@ == f.error && final(self).remaining() == f.left,
                Ok((_, rest)) => r is Ok && final(self).remaining() == rest,
            },
    {
        self.open(&Token::LeftBrace, "Expect an \"Object\".")
    }

    /// Reads the variant token of a value of the enum `name`, and tells
    /// the member and how its value is written.
    pub fn deserialize_enum(&mut self, name: &str) -> (r: Result<(String, VariantStyle), AsonError>)
        ensures
            match variant_start(old(self).remaining(), name@) {
                Err(f) => r matches Err(x) && x@ == f.error && final(self).remaining() == f.left,
                Ok((member, style, rest)) => r matches Ok((found, found_style)) && found@ == member
                    && found_style == style && final(self).remaining() == rest,
            },
    {
        match self.cursor.next_token()? {
            Some(Token::Variant(variant_type, member_name)) => {
                if !same_text(variant_type.as_str(), name) {
                    let mut message = String::from_str("Expect the type \"");
                    message.append(name);
                    message.append("\" of variant.");
                    return Err(
                        AsonError::MessageWithLocation(message, self.cursor.last_token_range()),
                    );
                }
                if self.cursor.expect_token(0, &Token::LeftParen)? {
                    Ok((member_name, VariantStyle::Parenthesized))
                } else if self.cursor.expect_token(0, &Token::LeftBrace)? {
                    Ok((member_name, VariantStyle::Braced))
                } else {
                    Ok((member_name, VariantStyle::Unit))
                }
            },
            Some(_) => Err(
                AsonError::at(
                    "Expect a \"Variant\".",
                    self.cursor.last_token_range().get_position_by_range_start(),
                ),
            ),
            None => Err(AsonError::end_of_document("Expect a \"Variant\".")),
        }
    }

    /// Asks for the next element of a construct.
    fn next_element(&mut self, first: bool, closer: Option<Token>, incomplete: &str) -> (r: Result<
        bool,
        AsonError,
    >)
        ensures
            step_outcome(
                r,
                final(self).remaining(),
                next_element(
                    old(self).remaining(),
                    first,
                    match closer {
                        Some(t) => Some(t@),
                        None => None,
                    },
                    incomplete@,
                ),
            ),
    {
        let exists_separator = if first {
            self.cursor.consume_new_line_if_exist()?
        } else {
            self.cursor.consume_new_line_or_comma_if_exist()?
        };
        match self.cursor.peek_token(0)? {
            Some(token) => {
                let closed = match &closer {
                    Some(c) => token.equals(c),
                    None => false,
                };
                if closed {
                    return Ok(false);
                }
            },
            None => {
                return Err(AsonError::end_of_document(incomplete));
            },
        }
        if !first && !exists_separator {
            let position = match self.cursor.peek_range(0)? {
                Some(range) => range.get_position_by_range_start(),
                None => self.cursor.last_token_range(),
            };
            return Err(AsonError::at("Expect a comma or new-line.", position));
        }
        Ok(true)
    }

    /// Reads the colon between a key and its value, with the line breaks
    /// around it.
    fn value_of_key(&mut self) -> (r: Result<(), AsonError>)
        ensures
            move_outcome(r, final(self).remaining(), after_colon(old(self).remaining())),
    {
        self.cursor.consume_new_line_if_exist()?;
        self.consume_colon()?;
        self.cursor.consume_new_line_if_exist()?;
        Ok(())
    }

    /// Whether the document is at its end: an error at the first token
    /// that is left.
    pub fn end(&self) -> (r: Result<(), AsonError>)
        ensures
            match document_end(self.remaining()) {
                Err(e) => r matches Err(x) && x@ == e,
                Ok(_) => r is Ok,
            },
    {
        match self.cursor.peek_range(0)? {
            Some(range) => Err(
                AsonError::at("Document has more than one node.", range.get_position_by_range_start()),
            ),
            None => Ok(()),
        }
    }
}

/// Asks for the elements of a list, one after the other.
pub struct ArrayAccessor {
    is_first_element: bool,
}

impl ArrayAccessor {
    /// Whether no element was asked for yet.
    pub closed spec fn is_first(&self) -> bool {
        self.is_first_element
    }

    /// An accessor that was asked for no element yet.
    pub fn new() -> (r: ArrayAccessor)
        ensures
            r.is_first(),
    {
        ArrayAccessor { is_first_element: true }
    }

    /// Whether another element comes before the closing bracket. Before
    /// every element but the first a comma or a line break has to stand.
    pub fn next_element_seed(&mut self, de: &mut Deserializer) -> (r: Result<bool, AsonError>)
        ensures
            step_outcome(
                r,
                final(de).remaining(),
                next_element(
                    old(de).remaining(),
                    old(self).is_first(),
                    Some(TokenView::RightBracket),
                    "Incomplete List."@,
                ),
            ),
            r matches Ok(true) ==> !final(self).is_first(),
            !(r matches Ok(true)) ==> final(self).is_first() == old(self).is_first(),
    {
        let found = de.next_element(
            self.is_first_element,
            Some(Token::RightBracket),
            "Incomplete List.",
        )?;
        if found {
            self.is_first_element = false;
        }
        Ok(found)
    }
}

/// Asks for the elements of a tuple, one after the other. The number of
/// elements is known to who asks, so the closing parenthesis is not looked
/// for.
pub struct TupleAccessor {
    is_first_element: bool,
}

impl TupleAccessor {
    /// Whether no element was asked for yet.
    pub closed spec fn is_first(&self) -> bool {
        self.is_first_element
    }

    /// An accessor that was asked for no element yet.
    pub fn new() -> (r: TupleAccessor)
        ensures
            r.is_first(),
    {
        TupleAccessor { is_first_element: true }
    }

    /// Moves to the next element. Before every element but the first a
    /// comma or a line break has to stand.
    pub fn next_element_seed(&mut self, de: &mut Deserializer) -> (r: Result<bool, AsonError>)
        ensures
            step_outcome(
                r,
                final(de).remaining(),
                next_element(old(de).remaining(), old(self).is_first(), None, "Incomplete Tuple."@),
            ),
            r matches Ok(true) ==> !final(self).is_first(),
            !(r matches Ok(true)) ==> final(self).is_first() == old(self).is_first(),
    {
        let found = de.next_element(self.is_first_element, None, "Incomplete Tuple.")?;
        if found {
            self.is_first_element = false;
        }
        Ok(found)
    }
}

/// Asks for the entries of a map, one after the other.
pub struct MapAccessor {
    is_first_element: bool,
}

impl MapAccessor {
    /// Whether no entry was asked for yet.
    pub closed spec fn is_first(&self) -> bool {
        self.is_first_element
    }

    /// An accessor that was asked for no entry yet.
    pub fn new() -> (r: MapAccessor)
        ensures
            r.is_first(),
    {
        MapAccessor { is_first_element: true }
    }

    /// Whether another entry comes before the closing bracket.
    pub fn next_key_seed(&mut self, de: &mut Deserializer) -> (r: Result<bool, AsonError>)
        ensures
            step_outcome(
                r,
                final(de).remaining(),
                next_element(
                    old(de).remaining(),
                    old(self).is_first(),
                    Some(TokenView::RightBracket),
                    "Incomplete Map."@,
                ),
            ),
            r matches Ok(true) ==> !final(self).is_first(),
            !(r matches Ok(true)) ==> final(self).is_first() == old(self).is_first(),
    {
        let found = de.next_element(
            self.is_first_element,
            Some(Token::RightBracket),
            "Incomplete Map.",
        )?;
        if found {
            self.is_first_element = false;
        }
        Ok(found)
    }

    /// Reads the colon behind a key, up to the value.
    pub fn next_value_seed(&mut self, de: &mut Deserializer) -> (r: Result<(), AsonError>)
        ensures
            move_outcome(r, final(de).remaining(), after_colon(old(de).remaining())),
            final(self).is_first() == old(self).is_first(),
    {
        de.value_of_key()
    }
}

/// Asks for the entries of an object, one after the other.
pub struct ObjectAccessor {
    is_first_element: bool,
}

impl ObjectAccessor {
    /// Whether no entry was asked for yet.
    pub closed spec fn is_first(&self) -> bool {
        self.is_first_element
    }

    /// An accessor that was asked for no entry yet.
    pub fn new() -> (r: ObjectAccessor)
        ensures
            r.is_first(),
    {
        ObjectAccessor { is_first_element: true }
    }

    /// Whether another entry comes before the closing brace.
    pub fn next_key_seed(&mut self, de: &mut Deserializer) -> (r: Result<bool, AsonError>)
        ensures
            step_outcome(
                r,
                final(de).remaining(),
                next_element(
                    old(de).remaining(),
                    old(self).is_first(),
                    Some(TokenView::RightBrace),
                    "Incomplete Object."@,
                ),
            ),
            r matches Ok(true) ==> !final(self).is_first(),
            !(r matches Ok(true)) ==> final(self).is_first() == old(self).is_first(),
    {
        let found = de.next_element(
            self.is_first_element,
            Some(Token::RightBrace),
            "Incomplete Object.",
        )?;
        if found {
            self.is_first_element = false;
        }
        Ok(found)
    }

    /// Reads the colon behind a key, up to the value.
    pub fn next_value_seed(&mut self, de: &mut Deserializer) -> (r: Result<(), AsonError>)
        ensures
            move_outcome(r, final(de).remaining(), after_colon(old(de).remaining())),
            final(self).is_first() == old(self).is_first(),
    {
        de.value_of_key()
    }
}

/// Gives the member of a variant and reads what stands around its value.
pub struct VariantAccessor {
    variant_member_name: String,
}

impl VariantAccessor {
    /// The name of the member.
    pub closed spec fn member(&self) -> Seq<char> {
        self.variant_member_name@
    }

    /// The accessor of the member `variant_member_name`.
    pub fn new(variant_member_name: &str) -> (r: VariantAccessor)
        ensures
            r.member() == variant_member_name@,
    {
        VariantAccessor { variant_member_name: variant_member_name.to_owned() }
    }

    /// The name of the member.
    pub fn variant_seed(&self) -> (r: &String)
        ensures
            r@ == self.member(),
    {
        &self.variant_member_name
    }

    /// Reads up to the one value of a variant: the opening parenthesis,
    /// and a line break if one is there.
    pub fn newtype_variant_seed(&self, de: &mut Deserializer) -> (r: Result<(), AsonError>)
        ensures
            move_outcome(r, final(de).remaining(), before_variant_value(old(de).remaining())),
    {
        de.consume_token(&Token::LeftParen, "open parenthese \"(\"")?;
        de.cursor.consume_new_line_if_exist()?;
        Ok(())
    }

    /// Reads what stands behind the one value of a variant: a line break
    /// if one is there, and the closing parenthesis.
    pub fn end_newtype_variant(&self, de: &mut Deserializer) -> (r: Result<(), AsonError>)
        ensures
            move_outcome(r, final(de).remaining(), after_variant_value(old(de).remaining())),
    {
        de.cursor.consume_new_line_if_exist()?;
        de.consume_right_paren()
    }
}

/// The decoder of a document that is given as characters.
pub fn from_char_stream(chars: Vec<char>) -> (r: Deserializer)
    ensures
        r.remaining() == normalized_stream(lexed_text(chars@)),
{
    Deserializer::from_token_peekable_iter(normalized_tokens(chars))
}

/// The decoder of a document that is given as text.
pub fn from_str(s: &str) -> (r: Deserializer)
    ensures
        r.remaining() == normalized_stream(lexed_text(s@)),
{
    from_char_stream(chars_of(s))
}

} // verus!
