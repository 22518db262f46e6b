use vstd::prelude::*;
use crate::date::Date;
use crate::error::{AsonError, ErrorView};
use crate::location::Location;
use crate::text::decimal;

verus! {

/// The size of a floating-point literal, without its sign.
#[derive(Debug, PartialEq, Clone)]
pub enum FloatMagnitude {
    NaN,
    Infinity,
    /// The decimal digits `digits`, read as an integer, times ten to the
    /// power `exponent`.
    Decimal { digits: String, exponent: i64 },
    /// The hexadecimal digits `digits`, read as an integer, times two to the
    /// power `exponent`.
    Hexadecimal { digits: String, exponent: i64 },
}

/// A floating-point literal, kept exactly as it was written: a sign and a
/// magnitude. Rounding to a binary format is left to whoever needs one.
#[derive(Debug, PartialEq, Clone)]
pub struct FloatLiteral {
    pub negative: bool,
    pub magnitude: FloatMagnitude,
}

/// The mathematical value of a [`FloatMagnitude`].
pub ghost enum FloatMagnitudeView {
    NaN,
    Infinity,
    Decimal { digits: Seq<char>, exponent: i64 },
    Hexadecimal { digits: Seq<char>, exponent: i64 },
}

/// The mathematical value of a [`FloatLiteral`].
pub ghost struct FloatView {
    pub negative: bool,
    pub magnitude: FloatMagnitudeView,
}

impl View for FloatMagnitude {
    type V = FloatMagnitudeView;

    open spec fn view(&self) -> FloatMagnitudeView {
        match self {
            FloatMagnitude::NaN => FloatMagnitudeView::NaN,
            FloatMagnitude::Infinity => FloatMagnitudeView::Infinity,
            FloatMagnitude::Decimal { digits, exponent } => FloatMagnitudeView::Decimal {
                digits: digits@,
                exponent: *exponent,
            },
            FloatMagnitude::Hexadecimal { digits, exponent } => FloatMagnitudeView::Hexadecimal {
                digits: digits@,
                exponent: *exponent,
            },
        }
    }
}

impl View for FloatLiteral {
    type V = FloatView;

    open spec fn view(&self) -> FloatView {
        FloatView { negative: self.negative, magnitude: self.magnitude@ }
    }
}

impl FloatView {
    /// Whether the literal is `NaN`.
    pub open spec fn is_nan(self) -> bool {
        self.magnitude is NaN
    }

    /// The literal with the opposite sign.
    pub open spec fn negated(self) -> FloatView {
        FloatView { negative: !self.negative, magnitude: self.magnitude }
    }
}

impl FloatMagnitude {
    /// A copy of the value.
    pub fn duplicate(&self) -> (r: FloatMagnitude)
        ensures
            r@ == self@,
    {
        match self {
            FloatMagnitude::NaN => FloatMagnitude::NaN,
            FloatMagnitude::Infinity => FloatMagnitude::Infinity,
            FloatMagnitude::Decimal { digits, exponent } => FloatMagnitude::Decimal {
                digits: digits.clone(),
                exponent: *exponent,
            },
            FloatMagnitude::Hexadecimal { digits, exponent } => FloatMagnitude::Hexadecimal {
                digits: digits.clone(),
                exponent: *exponent,
            },
        }
    }
}

impl FloatMagnitude {
    /// Whether two magnitudes are written alike.
    pub fn equals(&self, other: &FloatMagnitude) -> (r: bool)
        ensures
            r == (self@ == other@),
    {
        match (self, other) {
            (FloatMagnitude::NaN, FloatMagnitude::NaN) => true,
            (FloatMagnitude::Infinity, FloatMagnitude::Infinity) => true,
            (
                FloatMagnitude::Decimal { digits: a, exponent: x },
                FloatMagnitude::Decimal { digits: b, exponent: y },
            ) => *a == *b && *x == *y,
            (
                FloatMagnitude::Hexadecimal { digits: a, exponent: x },
                FloatMagnitude::Hexadecimal { digits: b, exponent: y },
            ) => *a == *b && *x == *y,
            _ => false,
        }
    }
}

impl FloatLiteral {
    /// Whether two literals are written alike.
    pub fn equals(&self, other: &FloatLiteral) -> (r: bool)
        ensures
            r == (self@ == other@),
    {
        self.negative == other.negative && self.magnitude.equals(&other.magnitude)
    }

    /// Whether the literal is `NaN`.
    pub fn is_nan(&self) -> (r: bool)
        ensures
            r == self@.is_nan(),
    {
        match &self.magnitude {
            FloatMagnitude::NaN => true,
            _ => false,
        }
    }

    /// The literal with the opposite sign.
    pub fn negated(self) -> (r: FloatLiteral)
        ensures
            r@ == self@.negated(),
    {
        FloatLiteral { negative: !self.negative, magnitude: self.magnitude }
    }

    /// A copy of the value.
    pub fn duplicate(&self) -> (r: FloatLiteral)
        ensures
            r@ == self@,
    {
        FloatLiteral { negative: self.negative, magnitude: self.magnitude.duplicate() }
    }
}

/// A number literal in the bucket that its suffix or its shape chose. A
/// signed bucket holds its value in the unsigned type of the same width, as
/// a bit pattern.
#[derive(Debug, PartialEq, Clone)]
pub enum NumberToken {
    I8(u8),
    U8(u8),
    I16(u16),
    U16(u16),
    I32(u32),
    U32(u32),
    I64(u64),
    U64(u64),
    F32(FloatLiteral),
    F64(FloatLiteral),
}

/// The mathematical value of a [`NumberToken`].
pub ghost enum NumberTokenView {
    I8(u8),
    U8(u8),
    I16(u16),
    U16(u16),
    I32(u32),
    U32(u32),
    I64(u64),
    U64(u64),
    F32(FloatView),
    F64(FloatView),
}

impl View for NumberToken {
    type V = NumberTokenView;

    open spec fn view(&self) -> NumberTokenView {
        match self {
            NumberToken::I8(v) => NumberTokenView::I8(*v),
            NumberToken::U8(v) => NumberTokenView::U8(*v),
            NumberToken::I16(v) => NumberTokenView::I16(*v),
            NumberToken::U16(v) => NumberTokenView::U16(*v),
            NumberToken::I32(v) => NumberTokenView::I32(*v),
            NumberToken::U32(v) => NumberTokenView::U32(*v),
            NumberToken::I64(v) => NumberTokenView::I64(*v),
            NumberToken::U64(v) => NumberTokenView::U64(*v),
            NumberToken::F32(v) => NumberTokenView::F32(v@),
            NumberToken::F64(v) => NumberTokenView::F64(v@),
        }
    }
}

impl NumberTokenView {
    /// What a signed bucket holds, read as an unsigned number; nothing for
    /// the other buckets.
    pub open spec fn signed_magnitude(self) -> Option<nat> {
        match self {
            NumberTokenView::I8(v) => Some(v as nat),
            NumberTokenView::I16(v) => Some(v as nat),
            NumberTokenView::I32(v) => Some(v as nat),
            NumberTokenView::I64(v) => Some(v as nat),
            _ => None,
        }
    }

    /// The largest value of the bucket's signed type, for a signed bucket.
    pub open spec fn signed_max(self) -> nat {
        match self {
            NumberTokenView::I8(_) => 0x7f,
            NumberTokenView::I16(_) => 0x7fff,
            NumberTokenView::I32(_) => 0x7fff_ffff,
            NumberTokenView::I64(_) => 0x7fff_ffff_ffff_ffff,
            _ => 0,
        }
    }

    /// A signed bucket whose number is above the largest value of its type.
    pub open spec fn is_overflowed(self) -> bool {
        self.signed_magnitude() matches Some(v) && v > self.signed_max()
    }

    /// Whether the bucket is one of the four unsigned buckets.
    pub open spec fn is_unsigned(self) -> bool {
        self is U8 || self is U16 || self is U32 || self is U64
    }

    /// The literal of a floating-point bucket.
    pub open spec fn float(self) -> Option<FloatView> {
        match self {
            NumberTokenView::F32(v) => Some(v),
            NumberTokenView::F64(v) => Some(v),
            _ => None,
        }
    }

    /// Whether the literal is `NaN`.
    pub open spec fn is_nan(self) -> bool {
        self.float() matches Some(v) && v.is_nan()
    }

    /// The name of the bucket's type, as a suffix writes it.
    pub open spec fn suffix_name(self) -> Seq<char> {
        match self {
            NumberTokenView::I8(_) => "i8"@,
            NumberTokenView::U8(_) => "u8"@,
            NumberTokenView::I16(_) => "i16"@,
            NumberTokenView::U16(_) => "u16"@,
            NumberTokenView::I32(_) => "i32"@,
            NumberTokenView::U32(_) => "u32"@,
            NumberTokenView::I64(_) => "i64"@,
            NumberTokenView::U64(_) => "u64"@,
            NumberTokenView::F32(_) => "f32"@,
            NumberTokenView::F64(_) => "f64"@,
        }
    }

    /// Whether a minus sign in front of the number gives a value of its
    /// type: a float that is no NaN, or a signed bucket whose number is at
    /// most one above the largest value of its type.
    pub open spec fn can_negate(self) -> bool {
        match self.float() {
            Some(v) => !v.is_nan(),
            None => self.signed_magnitude() matches Some(v) && v <= self.signed_max() + 1,
        }
    }

    /// The number with a minus sign applied: a float changes its sign, a
    /// signed bucket holds the two's complement of what it held.
    pub open spec fn negated(self) -> NumberTokenView {
        match self {
            NumberTokenView::I8(v) => NumberTokenView::I8(
                if v == 0 {
                    0
                } else {
                    (0x100 - v) as u8
                },
            ),
            NumberTokenView::I16(v) => NumberTokenView::I16(
                if v == 0 {
                    0
                } else {
                    (0x1_0000 - v) as u16
                },
            ),
            NumberTokenView::I32(v) => NumberTokenView::I32(
                if v == 0 {
                    0
                } else {
                    (0x1_0000_0000 - v) as u32
                },
            ),
            NumberTokenView::I64(v) => NumberTokenView::I64(
                if v == 0 {
                    0
                } else {
                    (0x1_0000_0000_0000_0000 - v) as u64
                },
            ),
            NumberTokenView::F32(v) => NumberTokenView::F32(v.negated()),
            NumberTokenView::F64(v) => NumberTokenView::F64(v.negated()),
            _ => self,
        }
    }

    /// The signed value that a signed bucket stands for, once its number is
    /// known to be a bit pattern of its type.
    pub open spec fn signed_value(self) -> int {
        match self {
            NumberTokenView::I8(v) => if v > 0x7f {
                v - 0x100
            } else {
                v as int
            },
            NumberTokenView::I16(v) => if v > 0x7fff {
                v - 0x1_0000
            } else {
                v as int
            },
            NumberTokenView::I32(v) => if v > 0x7fff_ffff {
                v - 0x1_0000_0000
            } else {
                v as int
            },
            NumberTokenView::I64(v) => if v > 0x7fff_ffff_ffff_ffff {
                v - 0x1_0000_0000_0000_0000
            } else {
                v as int
            },
            _ => 0,
        }
    }
}

impl NumberToken {
    /// What a signed bucket holds, read as an unsigned number.
    pub fn signed_magnitude(&self) -> (r: Option<u64>)
        ensures
            r is Some == self@.signed_magnitude() is Some,
            r matches Some(v) ==> self@.signed_magnitude() == Some(v as nat),
    {
        match self {
            NumberToken::I8(v) => Some(*v as u64),
            NumberToken::I16(v) => Some(*v as u64),
            NumberToken::I32(v) => Some(*v as u64),
            NumberToken::I64(v) => Some(*v),
            _ => None,
        }
    }

    /// Whether a signed bucket holds a number above the largest value of its type.
    pub fn is_overflowed(&self) -> (r: bool)
        ensures
            r == self@.is_overflowed(),
    {
        match self {
            NumberToken::I8(v) => *v > 0x7f,
            NumberToken::I16(v) => *v > 0x7fff,
            NumberToken::I32(v) => *v > 0x7fff_ffff,
            NumberToken::I64(v) => *v > 0x7fff_ffff_ffff_ffff,
            _ => false,
        }
    }

    /// Whether the bucket is one of the four unsigned buckets.
    pub fn is_unsigned(&self) -> (r: bool)
        ensures
            r == self@.is_unsigned(),
    {
        match self {
            NumberToken::U8(_) | NumberToken::U16(_) | NumberToken::U32(_) | NumberToken::U64(
                _,
            ) => true,
            _ => false,
        }
    }

    /// Whether the literal is `NaN`.
    pub fn is_nan(&self) -> (r: bool)
        ensures
            r == self@.is_nan(),
    {
        match self {
            NumberToken::F32(v) => v.is_nan(),
            NumberToken::F64(v) => v.is_nan(),
            _ => false,
        }
    }

    /// The name of the bucket's type, as a suffix writes it.
    pub fn suffix_name(&self) -> (r: &'static str)
        ensures
            r@ == self@.suffix_name(),
    {
        match self {
            NumberToken::I8(_) => "i8",
            NumberToken::U8(_) => "u8",
            NumberToken::I16(_) => "i16",
            NumberToken::U16(_) => "u16",
            NumberToken::I32(_) => "i32",
            NumberToken::U32(_) => "u32",
            NumberToken::I64(_) => "i64",
            NumberToken::U64(_) => "u64",
            NumberToken::F32(_) => "f32",
            NumberToken::F64(_) => "f64",
        }
    }

    /// Applies a minus sign, where that gives a value of the bucket's type.
    pub fn negated(self) -> (r: Option<NumberToken>)
        ensures
            r is Some == self@.can_negate(),
            r matches Some(n) ==> n@ == self@.negated(),
    {
        match self {
            NumberToken::I8(v) => if v > 0x80 {
                None
            } else if v == 0 {
                Some(NumberToken::I8(0))
            } else {
                Some(NumberToken::I8(0xff - v + 1))
            },
            NumberToken::I16(v) => if v > 0x8000 {
                None
            } else if v == 0 {
                Some(NumberToken::I16(0))
            } else {
                Some(NumberToken::I16(0xffff - v + 1))
            },
            NumberToken::I32(v) => if v > 0x8000_0000 {
                None
            } else if v == 0 {
                Some(NumberToken::I32(0))
            } else {
                Some(NumberToken::I32(0xffff_ffff - v + 1))
            },
            NumberToken::I64(v) => if v > 0x8000_0000_0000_0000 {
                None
            } else if v == 0 {
                Some(NumberToken::I64(0))
            } else {
                Some(NumberToken::I64(0xffff_ffff_ffff_ffff - v + 1))
            },
            NumberToken::F32(v) => if v.is_nan() {
                None
            } else {
                Some(NumberToken::F32(v.negated()))
            },
            NumberToken::F64(v) => if v.is_nan() {
                None
            } else {
                Some(NumberToken::F64(v.negated()))
            },
            _ => None,
        }
    }

    /// Whether two number tokens hold the same number in the same bucket.
    pub fn equals(&self, other: &NumberToken) -> (r: bool)
        ensures
            r == (self@ == other@),
    {
        match (self, other) {
            (NumberToken::I8(a), NumberToken::I8(b)) => *a == *b,
            (NumberToken::U8(a), NumberToken::U8(b)) => *a == *b,
            (NumberToken::I16(a), NumberToken::I16(b)) => *a == *b,
            (NumberToken::U16(a), NumberToken::U16(b)) => *a == *b,
            (NumberToken::I32(a), NumberToken::I32(b)) => *a == *b,
            (NumberToken::U32(a), NumberToken::U32(b)) => *a == *b,
            (NumberToken::I64(a), NumberToken::I64(b)) => *a == *b,
            (NumberToken::U64(a), NumberToken::U64(b)) => *a == *b,
            (NumberToken::F32(a), NumberToken::F32(b)) => a.equals(b),
            (NumberToken::F64(a), NumberToken::F64(b)) => a.equals(b),
            _ => false,
        }
    }

    /// A copy of the value.
    pub fn duplicate(&self) -> (r: NumberToken)
        ensures
            r@ == self@,
    {
        match self {
            NumberToken::I8(v) => NumberToken::I8(*v),
            NumberToken::U8(v) => NumberToken::U8(*v),
            NumberToken::I16(v) => NumberToken::I16(*v),
            NumberToken::U16(v) => NumberToken::U16(*v),
            NumberToken::I32(v) => NumberToken::I32(*v),
            NumberToken::U32(v) => NumberToken::U32(*v),
            NumberToken::I64(v) => NumberToken::I64(*v),
            NumberToken::U64(v) => NumberToken::U64(*v),
            NumberToken::F32(v) => NumberToken::F32(v.duplicate()),
            NumberToken::F64(v) => NumberToken::F64(v.duplicate()),
        }
    }
}

/// A comment, with the text between its marks.
#[derive(Debug, PartialEq, Clone)]
pub enum Comment {
    /// `// ...` up to the end of the line.
    Line(String),
    /// `/* ... */`.
    Block(String),
}

/// The mathematical value of a [`Comment`].
pub ghost enum CommentView {
    Line(Seq<char>),
    Block(Seq<char>),
}

impl View for Comment {
    type V = CommentView;

    open spec fn view(&self) -> CommentView {
        match self {
            Comment::Line(s) => CommentView::Line(s@),
            Comment::Block(s) => CommentView::Block(s@),
        }
    }
}

impl Comment {
    /// Whether two comments are of one kind and hold the same text.
    pub fn equals(&self, other: &Comment) -> (r: bool)
        ensures
            r == (self@ == other@),
    {
        match (self, other) {
            (Comment::Line(a), Comment::Line(b)) => *a == *b,
            (Comment::Block(a), Comment::Block(b)) => *a == *b,
            _ => false,
        }
    }

    /// A copy of the value.
    pub fn duplicate(&self) -> (r: Comment)
        ensures
            r@ == self@,
    {
        match self {
            Comment::Line(s) => Comment::Line(s.clone()),
            Comment::Block(s) => Comment::Block(s.clone()),
        }
    }
}

/// A lexical atom.
#[derive(Debug, PartialEq, Clone)]
pub enum Token {
    Number(NumberToken),
    Boolean(bool),
    Char(char),
    String(String),
    Date(Date),
    HexByteData(Vec<u8>),
    Identifier(String),
    /// `Type::Member`.
    Variant(String, String),
    LeftBrace,
    RightBrace,
    LeftBracket,
    RightBracket,
    LeftParen,
    RightParen,
    Colon,
    Comma,
    Plus,
    Minus,
    NewLine,
    Comment(Comment),
}

/// The mathematical value of a [`Token`].
pub ghost enum TokenView {
    Number(NumberTokenView),
    Boolean(bool),
    Char(char),
    String(Seq<char>),
    Date(Date),
    HexByteData(Seq<u8>),
    Identifier(Seq<char>),
    Variant(Seq<char>, Seq<char>),
    LeftBrace,
    RightBrace,
    LeftBracket,
    RightBracket,
    LeftParen,
    RightParen,
    Colon,
    Comma,
    Plus,
    Minus,
    NewLine,
    Comment(CommentView),
}

impl View for Token {
    type V = TokenView;

    open spec fn view(&self) -> TokenView {
        match self {
            Token::Number(n) => TokenView::Number(n@),
            Token::Boolean(b) => TokenView::Boolean(*b),
            Token::Char(c) => TokenView::Char(*c),
            Token::String(s) => TokenView::String(s@),
            Token::Date(d) => TokenView::Date(*d),
            Token::HexByteData(d) => TokenView::HexByteData(d@),
            Token::Identifier(s) => TokenView::Identifier(s@),
            Token::Variant(t, m) => TokenView::Variant(t@, m@),
            Token::LeftBrace => TokenView::LeftBrace,
            Token::RightBrace => TokenView::RightBrace,
            Token::LeftBracket => TokenView::LeftBracket,
            Token::RightBracket => TokenView::RightBracket,
            Token::LeftParen => TokenView::LeftParen,
            Token::RightParen => TokenView::RightParen,
            Token::Colon => TokenView::Colon,
            Token::Comma => TokenView::Comma,
            Token::Plus => TokenView::Plus,
            Token::Minus => TokenView::Minus,
            Token::NewLine => TokenView::NewLine,
            Token::Comment(c) => TokenView::Comment(c@),
        }
    }
}

/// A copy of a byte vector.
pub fn duplicate_bytes(data: &Vec<u8>) -> (r: Vec<u8>)
    ensures
        r@ == data@,
{
    let mut r: Vec<u8> = Vec::new();
    let mut i: usize = 0;
    while i < data.len()
        invariant
            i <= data.len(),
            r@ == data@.take(i as int),
        decreases data.len() - i,
    {
        r.push(data[i]);
        assert(data@.take(i + 1) =~= data@.take(i as int).push(data@[i as int]));
        i += 1;
    }
    assert(data@.take(data.len() as int) =~= data@);
    r
}

/// Whether two byte vectors hold the same bytes.
pub fn same_bytes(a: &Vec<u8>, b: &Vec<u8>) -> (r: bool)
    ensures
        r == (a@ == b@),
{
    if a.len() != b.len() {
        return false;
    }
    let mut i: usize = 0;
    while i < a.len()
        invariant
            i <= a.len(),
            a.len() == b.len(),
            forall|j: int| 0 <= j < i ==> a@[j] == b@[j],
        decreases a.len() - i,
    {
        if a[i] != b[i] {
            return false;
        }
        i += 1;
    }
    assert(a@ =~= b@);
    true
}

impl Token {
    /// Whether two tokens are the same token.
    pub fn equals(&self, other: &Token) -> (r: bool)
        ensures
            r == (self@ == other@),
    {
        match (self, other) {
            (Token::Number(a), Token::Number(b)) => a.equals(b),
            (Token::Boolean(a), Token::Boolean(b)) => *a == *b,
            (Token::Char(a), Token::Char(b)) => *a == *b,
            (Token::String(a), Token::String(b)) => *a == *b,
            (Token::Date(a), Token::Date(b)) => *a == *b,
            (Token::HexByteData(a), Token::HexByteData(b)) => same_bytes(a, b),
            (Token::Identifier(a), Token::Identifier(b)) => *a == *b,
            (Token::Variant(a, x), Token::Variant(b, y)) => *a == *b && *x == *y,
            (Token::LeftBrace, Token::LeftBrace) => true,
            (Token::RightBrace, Token::RightBrace) => true,
            (Token::LeftBracket, Token::LeftBracket) => true,
            (Token::RightBracket, Token::RightBracket) => true,
            (Token::LeftParen, Token::LeftParen) => true,
            (Token::RightParen, Token::RightParen) => true,
            (Token::Colon, Token::Colon) => true,
            (Token::Comma, Token::Comma) => true,
            (Token::Plus, Token::Plus) => true,
            (Token::Minus, Token::Minus) => true,
            (Token::NewLine, Token::NewLine) => true,
            (Token::Comment(a), Token::Comment(b)) => a.equals(b),
            _ => false,
        }
    }

    /// A copy of the value.
    pub fn duplicate(&self) -> (r: Token)
        ensures
            r@ == self@,
    {
        match self {
            Token::Number(n) => Token::Number(n.duplicate()),
            Token::Boolean(b) => Token::Boolean(*b),
            Token::Char(c) => Token::Char(*c),
            Token::String(s) => Token::String(s.clone()),
            Token::Date(d) => Token::Date(*d),
            Token::HexByteData(d) => Token::HexByteData(duplicate_bytes(d)),
            Token::Identifier(s) => Token::Identifier(s.clone()),
            Token::Variant(t, m) => Token::Variant(t.clone(), m.clone()),
            Token::LeftBrace => Token::LeftBrace,
            Token::RightBrace => Token::RightBrace,
            Token::LeftBracket => Token::LeftBracket,
            Token::RightBracket => Token::RightBracket,
            Token::LeftParen => Token::LeftParen,
            Token::RightParen => Token::RightParen,
            Token::Colon => Token::Colon,
            Token::Comma => Token::Comma,
            Token::Plus => Token::Plus,
            Token::Minus => Token::Minus,
            Token::NewLine => Token::NewLine,
            Token::Comment(c) => Token::Comment(c.duplicate()),
        }
    }
}

/// A token and the range of the text it was read from.
#[derive(Debug, PartialEq, Clone)]
pub struct TokenWithRange {
    pub token: Token,
    pub range: Location,
}

/// The mathematical value of a [`TokenWithRange`].
pub ghost struct TokenWithRangeView {
    pub token: TokenView,
    pub range: Location,
}

impl View for TokenWithRange {
    type V = TokenWithRangeView;

    open spec fn view(&self) -> TokenWithRangeView {
        TokenWithRangeView { token: self.token@, range: self.range }
    }
}

impl TokenWithRange {
    /// The token `token` with the range `range`.
    pub fn new(token: Token, range: Location) -> (r: TokenWithRange)
        ensures
            r@ == (TokenWithRangeView { token: token@, range }),
    {
        TokenWithRange { token, range }
    }

    /// The token `token` with the range of `length` bytes from `position`.
    pub fn from_position_and_length(token: Token, position: &Location, length: usize) -> (r:
        TokenWithRange)
        ensures
            r@ == (TokenWithRangeView { token: token@, range: position.with_length(length) }),
    {
        TokenWithRange { token, range: Location::from_position_and_length(position, length) }
    }

    /// A copy of the value.
    pub fn duplicate(&self) -> (r: TokenWithRange)
        ensures
            r@ == self@,
    {
        TokenWithRange { token: self.token.duplicate(), range: self.range }
    }
}

/// What a stage hands on at each step: a token, or the error
/// that ends the stream.
pub type Item = Result<TokenWithRange, AsonError>;

/// The mathematical value of an [`Item`].
pub type ItemView = Result<TokenWithRangeView, ErrorView>;

/// The mathematical value of an item.
pub open spec fn item_view(item: Item) -> ItemView {
    match item {
        Ok(t) => Ok(t@),
        Err(e) => Err(e@),
    }
}

/// The mathematical value of a sequence of items.
pub open spec fn items_view(items: Seq<Item>) -> Seq<ItemView> {
    Seq::new(items.len(), |i: int| item_view(items[i]))
}

/// A copy of an item.
pub fn duplicate_item(item: &Item) -> (r: Item)
    ensures
        item_view(r) == item_view(*item),
{
    match item {
        Ok(t) => Ok(t.duplicate()),
        Err(e) => Err(e.duplicate()),
    }
}

} // verus!
