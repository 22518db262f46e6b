use vstd::prelude::*;
use vstd::string::*;
use crate::lexer::scan::{
    decimal_digit, digit_value, has_char_at, hex_digit, is_char_at, is_decimal_digit,
    is_hex_digit, is_letter, is_terminator, is_text, terminator, value_of_digit, with_char,
    Scan, Scanned,
};
use crate::token::{
    FloatLiteral, FloatMagnitude, FloatMagnitudeView, FloatView, NumberToken, NumberTokenView,
    Token, TokenView,
};

verus! {

/// The bucket of a number.
#[derive(Debug, PartialEq, Eq, Clone, Copy, Structural)]
pub enum NumberKind {
    I8,
    U8,
    I16,
    U16,
    I32,
    U32,
    I64,
    U64,
    F32,
    F64,
}

impl NumberKind {
    /// Whether the bucket is one of the two floating-point buckets.
    pub open spec fn is_float(self) -> bool {
        self is F32 || self is F64
    }

    /// The largest number that a literal of the bucket may write: the
    /// largest value of the unsigned type of the bucket's width.
    pub open spec fn limit(self) -> nat {
        match self {
            NumberKind::I8 | NumberKind::U8 => 0xff,
            NumberKind::I16 | NumberKind::U16 => 0xffff,
            NumberKind::I32 | NumberKind::U32 => 0xffff_ffff,
            _ => 0xffff_ffff_ffff_ffff,
        }
    }

    /// The name of the bucket, as a suffix writes it.
    pub open spec fn name(self) -> Seq<char> {
        match self {
            NumberKind::I8 => "i8"@,
            NumberKind::U8 => "u8"@,
            NumberKind::I16 => "i16"@,
            NumberKind::U16 => "u16"@,
            NumberKind::I32 => "i32"@,
            NumberKind::U32 => "u32"@,
            NumberKind::I64 => "i64"@,
            NumberKind::U64 => "u64"@,
            NumberKind::F32 => "f32"@,
            NumberKind::F64 => "f64"@,
        }
    }

    /// The token of the integer `value` in the bucket.
    pub open spec fn integer(self, value: nat) -> NumberTokenView {
        match self {
            NumberKind::I8 => NumberTokenView::I8(value as u8),
            NumberKind::U8 => NumberTokenView::U8(value as u8),
            NumberKind::I16 => NumberTokenView::I16(value as u16),
            NumberKind::U16 => NumberTokenView::U16(value as u16),
            NumberKind::I32 => NumberTokenView::I32(value as u32),
            NumberKind::U32 => NumberTokenView::U32(value as u32),
            NumberKind::I64 => NumberTokenView::I64(value as u64),
            _ => NumberTokenView::U64(value as u64),
        }
    }

    fn is_floating(self) -> (r: bool)
        ensures
            r == self.is_float(),
    {
        match self {
            NumberKind::F32 | NumberKind::F64 => true,
            _ => false,
        }
    }

    fn largest(self) -> (r: u64)
        ensures
            r == self.limit(),
    {
        match self {
            NumberKind::I8 | NumberKind::U8 => 0xff,
            NumberKind::I16 | NumberKind::U16 => 0xffff,
            NumberKind::I32 | NumberKind::U32 => 0xffff_ffff,
            _ => 0xffff_ffff_ffff_ffff,
        }
    }

    fn label(self) -> (r: &'static str)
        ensures
            r@ == self.name(),
    {
        match self {
            NumberKind::I8 => "i8",
            NumberKind::U8 => "u8",
            NumberKind::I16 => "i16",
            NumberKind::U16 => "u16",
            NumberKind::I32 => "i32",
            NumberKind::U32 => "u32",
            NumberKind::I64 => "i64",
            NumberKind::U64 => "u64",
            NumberKind::F32 => "f32",
            NumberKind::F64 => "f64",
        }
    }

    fn integer_token(self, value: u64) -> (r: NumberToken)
        requires
            !self.is_float(),
            value <= self.limit(),
        ensures
            r@ == self.integer(value as nat),
    {
        match self {
            NumberKind::I8 => NumberToken::I8(value as u8),
            NumberKind::U8 => NumberToken::U8(value as u8),
            NumberKind::I16 => NumberToken::I16(value as u16),
            NumberKind::U16 => NumberToken::U16(value as u16),
            NumberKind::I32 => NumberToken::I32(value as u32),
            NumberKind::U32 => NumberToken::U32(value as u32),
            NumberKind::I64 => NumberToken::I64(value),
            _ => NumberToken::U64(value),
        }
    }
}

/// The bucket that a suffix names.
pub open spec fn suffix_kind(suffix: Seq<char>) -> Option<NumberKind> {
    if suffix == "i8"@ {
        Some(NumberKind::I8)
    } else if suffix == "u8"@ {
        Some(NumberKind::U8)
    } else if suffix == "i16"@ {
        Some(NumberKind::I16)
    } else if suffix == "u16"@ {
        Some(NumberKind::U16)
    } else if suffix == "i32"@ {
        Some(NumberKind::I32)
    } else if suffix == "u32"@ {
        Some(NumberKind::U32)
    } else if suffix == "i64"@ {
        Some(NumberKind::I64)
    } else if suffix == "u64"@ {
        Some(NumberKind::U64)
    } else if suffix == "f32"@ {
        Some(NumberKind::F32)
    } else if suffix == "f64"@ {
        Some(NumberKind::F64)
    } else {
        None
    }
}

/// The bucket that the suffix `chars[from..to]` names.
fn kind_of_suffix(chars: &Vec<char>, from: usize, to: usize) -> (r: Option<NumberKind>)
    requires
        from <= to <= chars.len(),
    ensures
        r == suffix_kind(chars@.subrange(from as int, to as int)),
{
    if is_text(chars, from, to, "i8") {
        Some(NumberKind::I8)
    } else if is_text(chars, from, to, "u8") {
        Some(NumberKind::U8)
    } else if is_text(chars, from, to, "i16") {
        Some(NumberKind::I16)
    } else if is_text(chars, from, to, "u16") {
        Some(NumberKind::U16)
    } else if is_text(chars, from, to, "i32") {
        Some(NumberKind::I32)
    } else if is_text(chars, from, to, "u32") {
        Some(NumberKind::U32)
    } else if is_text(chars, from, to, "i64") {
        Some(NumberKind::I64)
    } else if is_text(chars, from, to, "u64") {
        Some(NumberKind::U64)
    } else if is_text(chars, from, to, "f32") {
        Some(NumberKind::F32)
    } else if is_text(chars, from, to, "f64") {
        Some(NumberKind::F64)
    } else {
        None
    }
}

/// Whether `c` is a digit of the radix: 2, 10 or 16.
pub open spec fn is_digit_of(c: char, radix: int) -> bool {
    if radix == 16 {
        is_hex_digit(c)
    } else if radix == 2 {
        c == '0' || c == '1'
    } else {
        is_decimal_digit(c)
    }
}

fn digit_of(c: char, radix: u8) -> (r: bool)
    requires
        radix == 2 || radix == 10 || radix == 16,
    ensures
        r == is_digit_of(c, radix as int),
        r ==> is_hex_digit(c) && digit_value(c) < radix,
{
    if radix == 16 {
        hex_digit(c)
    } else if radix == 2 {
        c == '0' || c == '1'
    } else {
        decimal_digit(c)
    }
}

/// Where the run of digits and underscores that begins at `i` ends.
pub open spec fn run_end(chars: Seq<char>, i: int, radix: int) -> int
    decreases chars.len() - i,
{
    if 0 <= i < chars.len() && (is_digit_of(chars[i], radix) || chars[i] == '_') {
        run_end(chars, i + 1, radix)
    } else {
        i
    }
}

/// A run of digits ends within the text, is made of digits and underscores, and
/// is not empty where it begins with a digit.
pub proof fn lemma_run_end(chars: Seq<char>, i: int, radix: int)
    requires
        0 <= i <= chars.len(),
    ensures
        i <= run_end(chars, i, radix) <= chars.len(),
        forall|j: int|
            i <= j < run_end(chars, i, radix) ==> is_digit_of(#[trigger] chars[j], radix)
                || chars[j] == '_',
        i < chars.len() && is_digit_of(chars[i], radix) ==> i < run_end(chars, i, radix),
    decreases chars.len() - i,
{
    if 0 <= i < chars.len() && (is_digit_of(chars[i], radix) || chars[i] == '_') {
        lemma_run_end(chars, i + 1, radix);
    }
}

/// The index behind the run of digits and underscores that begins at `i`.
fn skip_run(chars: &Vec<char>, i: usize, radix: u8) -> (end: usize)
    requires
        i <= chars.len(),
        radix == 2 || radix == 10 || radix == 16,
    ensures
        end == run_end(chars@, i as int, radix as int),
        i <= end <= chars.len(),
        forall|j: int|
            i <= j < end ==> is_digit_of(#[trigger] chars@[j], radix as int) || chars@[j] == '_',
        i < chars.len() && is_digit_of(chars@[i as int], radix as int) ==> i < end,
{
    let mut end = i;
    proof {
        lemma_run_end(chars@, i as int, radix as int);
    }
    while end < chars.len() && (digit_of(chars[end], radix) || chars[end] == '_')
        invariant
            i <= end <= chars.len(),
            radix == 2 || radix == 10 || radix == 16,
            run_end(chars@, i as int, radix as int) == run_end(chars@, end as int, radix as int),
        decreases chars.len() - end,
    {
        end += 1;
    }
    end
}

/// The digits of `chars[from..to]`: the text without its underscores.
pub open spec fn digits_of(chars: Seq<char>, from: int, to: int) -> Seq<char>
    decreases to - from,
{
    if from < to {
        if chars[to - 1] == '_' {
            digits_of(chars, from, to - 1)
        } else {
            digits_of(chars, from, to - 1).push(chars[to - 1])
        }
    } else {
        Seq::empty()
    }
}

/// The number that the digits of `chars[from..to]` write in the radix.
pub open spec fn value_of(chars: Seq<char>, from: int, to: int, radix: int) -> nat
    decreases to - from,
{
    if from < to {
        if chars[to - 1] == '_' {
            value_of(chars, from, to - 1, radix)
        } else {
            (value_of(chars, from, to - 1, radix) * radix + digit_value(chars[to - 1])) as nat
        }
    } else {
        0
    }
}

/// The smaller of a number and a bound.
pub open spec fn at_most(value: nat, bound: nat) -> nat {
    if value > bound {
        bound
    } else {
        value
    }
}

/// `v`, held within the range of `i64`.
pub open spec fn clamp_i64(v: int) -> i64 {
    if v < i64::MIN {
        i64::MIN
    } else if v > i64::MAX {
        i64::MAX
    } else {
        v as i64
    }
}

/// Where the parts of a number literal stand in the text.
pub struct NumberShape {
    /// 2, 10 or 16.
    pub radix: u8,
    /// The digits before the point.
    pub whole: (usize, usize),
    /// The digits behind the point.
    pub fraction: Option<(usize, usize)>,
    /// The exponent: whether it is negative, and its digits.
    pub exponent: Option<(bool, usize, usize)>,
    /// The type suffix.
    pub suffix: Option<(usize, usize)>,
    /// The index behind the literal.
    pub end: usize,
}

/// The mathematical value of a [`NumberShape`].
pub ghost struct Shape {
    pub radix: int,
    pub whole: (int, int),
    pub fraction: Option<(int, int)>,
    pub exponent: Option<(bool, int, int)>,
    pub suffix: Option<(int, int)>,
    pub end: int,
}

impl View for NumberShape {
    type V = Shape;

    open spec fn view(&self) -> Shape {
        Shape {
            radix: self.radix as int,
            whole: (self.whole.0 as int, self.whole.1 as int),
            fraction: match self.fraction {
                Some((a, b)) => Some((a as int, b as int)),
                None => None,
            },
            exponent: match self.exponent {
                Some((n, a, b)) => Some((n, a as int, b as int)),
                None => None,
            },
            suffix: match self.suffix {
                Some((a, b)) => Some((a as int, b as int)),
                None => None,
            },
            end: self.end as int,
        }
    }
}

/// Where the run of letters and digits that begins at `i` ends.
pub open spec fn word_end(chars: Seq<char>, i: int) -> int
    decreases chars.len() - i,
{
    if 0 <= i < chars.len() && (is_letter(chars[i]) || is_decimal_digit(chars[i])) {
        word_end(chars, i + 1)
    } else {
        i
    }
}

/// The radix that a literal at `at` is written in: 16 behind `0x`, 2
/// behind `0b`, and 10 otherwise.
pub open spec fn radix_at(chars: Seq<char>, at: int) -> int {
    if is_char_at(chars, at, '0') && is_char_at(chars, at + 1, 'x') {
        16
    } else if is_char_at(chars, at, '0') && is_char_at(chars, at + 1, 'b') {
        2
    } else {
        10
    }
}

/// Whether the exponent of a literal of the radix begins at `i`: `e` or
/// `E` in a decimal literal, `p` or `P` in a hexadecimal one.
pub open spec fn is_exponent_mark(chars: Seq<char>, i: int, radix: int) -> bool {
    if radix == 10 {
        is_char_at(chars, i, 'e') || is_char_at(chars, i, 'E')
    } else if radix == 16 {
        is_char_at(chars, i, 'p') || is_char_at(chars, i, 'P')
    } else {
        false
    }
}

/// The digits of a literal, before and behind the point.
pub ghost struct Mantissa {
    pub radix: int,
    pub whole: (int, int),
    pub fraction: Option<(int, int)>,
    pub end: int,
}

/// The mantissa of the number literal that begins at `at`: an optional
/// radix prefix, digits, and an optional point with digits behind it.
/// Every run of digits begins with a digit and may hold underscores from
/// there on. A binary literal has no point.
pub open spec fn mantissa_shape(chars: Seq<char>, at: int) -> Result<Mantissa, Seq<char>> {
    let radix = radix_at(chars, at);
    let start = if radix == 10 {
        at
    } else {
        at + 2
    };
    if !(start < chars.len() && is_digit_of(chars[start], radix)) {
        Err("Expect a digit behind the radix prefix."@)
    } else {
        let whole_end = run_end(chars, start, radix);
        if radix != 2 && is_char_at(chars, whole_end, '.') {
            if !(whole_end + 1 < chars.len() && is_digit_of(chars[whole_end + 1], radix)) {
                Err("Expect a digit behind the point."@)
            } else {
                let end = run_end(chars, whole_end + 1, radix);
                Ok(
                    Mantissa {
                        radix,
                        whole: (start, whole_end),
                        fraction: Some((whole_end + 1, end)),
                        end,
                    },
                )
            }
        } else {
            Ok(Mantissa { radix, whole: (start, whole_end), fraction: None, end: whole_end })
        }
    }
}

/// The exponent of a literal of the radix, if one begins at `i`: its
/// mark, an optional sign, and decimal digits. The result holds whether
/// the exponent is negative and where its digits stand, and the index
/// behind it.
pub open spec fn exponent_shape(chars: Seq<char>, i: int, radix: int) -> Result<
    (Option<(bool, int, int)>, int),
    Seq<char>,
> {
    if is_exponent_mark(chars, i, radix) {
        let negative = is_char_at(chars, i + 1, '-');
        let digits = if negative || is_char_at(chars, i + 1, '+') {
            i + 2
        } else {
            i + 1
        };
        if !(digits < chars.len() && is_decimal_digit(chars[digits])) {
            Err("Expect a digit for the exponent."@)
        } else {
            let end = run_end(chars, digits, 10);
            Ok((Some((negative, digits, end)), end))
        }
    } else {
        Ok((None, i))
    }
}

/// The type suffix, if one begins at `i`: a word that begins with `i`,
/// `u` or `f`.
pub open spec fn suffix_shape(chars: Seq<char>, i: int) -> (Option<(int, int)>, int) {
    if is_char_at(chars, i, 'i') || is_char_at(chars, i, 'u') || is_char_at(chars, i, 'f') {
        (Some((i, word_end(chars, i))), word_end(chars, i))
    } else {
        (None, i)
    }
}

/// The parts of the number literal that begins at `at`: a mantissa, an
/// optional exponent and an optional type suffix.
pub open spec fn number_shape(chars: Seq<char>, at: int) -> Result<Shape, Seq<char>> {
    match mantissa_shape(chars, at) {
        Err(message) => Err(message),
        Ok(mantissa) => match exponent_shape(chars, mantissa.end, mantissa.radix) {
            Err(message) => Err(message),
            Ok((exponent, number_end)) => {
                let (suffix, end) = suffix_shape(chars, number_end);
                Ok(
                    Shape {
                        radix: mantissa.radix,
                        whole: mantissa.whole,
                        fraction: mantissa.fraction,
                        exponent,
                        suffix,
                        end,
                    },
                )
            },
        },
    }
}

/// The largest exponent that is read as written; a larger one is held at
/// this.
pub open spec fn exponent_cap() -> nat {
    0x1000_0000_0000_0000
}

/// The exponent of a floating-point literal of the shape: the written
/// exponent, less one for each decimal digit behind the point or four for
/// each hexadecimal one.
pub open spec fn float_exponent(chars: Seq<char>, shape: Shape) -> i64 {
    let written = match shape.exponent {
        Some((negative, from, to)) => {
            let size = at_most(value_of(chars, from, to, 10), exponent_cap());
            if negative {
                -(size as int)
            } else {
                size as int
            }
        },
        None => 0,
    };
    let behind_point = match shape.fraction {
        Some((from, to)) => digits_of(chars, from, to).len() as int,
        None => 0,
    };
    clamp_i64(
        written - (if shape.radix == 16 {
            4 * behind_point
        } else {
            behind_point
        }),
    )
}

/// The digits of the mantissa: those before the point and those behind
/// it.
pub open spec fn mantissa_digits(chars: Seq<char>, shape: Shape) -> Seq<char> {
    digits_of(chars, shape.whole.0, shape.whole.1) + (match shape.fraction {
        Some((from, to)) => digits_of(chars, from, to),
        None => Seq::empty(),
    })
}

/// The message for a number that its bucket cannot hold.
pub open spec fn too_large_message(kind: NumberKind) -> Seq<char> {
    "The number is too large for the type "@ + kind.name() + "."@
}

/// The token of a literal of the shape.
///
/// With a point, an exponent or a floating-point suffix the literal is a
/// float, of the bucket `f64` unless the suffix says `f32`. Otherwise it is
/// an integer, of the bucket `i32` unless the suffix names another, and has
/// to fit the unsigned type of the bucket's width.
pub open spec fn number_token(chars: Seq<char>, shape: Shape) -> Result<TokenView, Seq<char>> {
    let named = match shape.suffix {
        Some((from, to)) => suffix_kind(chars.subrange(from, to)),
        None => None,
    };
    if shape.suffix is Some && named is None {
        Err("Invalid number type."@)
    } else if shape.fraction is Some || shape.exponent is Some || (named matches Some(k)
        && k.is_float()) {
        if shape.radix == 2 {
            Err("A binary number has to be an integer."@)
        } else if named matches Some(k) && !k.is_float() {
            Err("A floating point number has to be of the type f32 or f64."@)
        } else {
            let digits = mantissa_digits(chars, shape);
            let exponent = float_exponent(chars, shape);
            let literal = FloatView {
                negative: false,
                magnitude: if shape.radix == 16 {
                    FloatMagnitudeView::Hexadecimal { digits, exponent }
                } else {
                    FloatMagnitudeView::Decimal { digits, exponent }
                },
            };
            Ok(
                TokenView::Number(
                    if named == Some(NumberKind::F32) {
                        NumberTokenView::F32(literal)
                    } else {
                        NumberTokenView::F64(literal)
                    },
                ),
            )
        }
    } else {
        let kind = match named {
            Some(k) => k,
            None => NumberKind::I32,
        };
        let value = value_of(chars, shape.whole.0, shape.whole.1, shape.radix);
        if value > kind.limit() {
            Err(too_large_message(kind))
        } else {
            Ok(TokenView::Number(kind.integer(value)))
        }
    }
}

/// Where the literal that begins at `i` ends for its reader: at the next
/// terminator, or at the end of the text.
pub open spec fn literal_end(chars: Seq<char>, i: int) -> int
    decreases chars.len() - i,
{
    if 0 <= i < chars.len() && !is_terminator(chars[i]) {
        literal_end(chars, i + 1)
    } else {
        i
    }
}

/// A literal does not end within text that holds no terminator.
pub proof fn lemma_literal_covers(chars: Seq<char>, i: int, to: int)
    requires
        0 <= i <= to <= chars.len(),
        forall|j: int| i <= j < to ==> !is_terminator(#[trigger] chars[j]),
    ensures
        to <= literal_end(chars, i),
    decreases to - i,
{
    if i < to {
        assert(!is_terminator(chars[i]));
        lemma_literal_covers(chars, i + 1, to);
    } else {
        lemma_literal_end(chars, i);
    }
}

/// A literal ends within the text, behind its first character where that is
/// no terminator.
pub proof fn lemma_literal_end(chars: Seq<char>, i: int)
    requires
        0 <= i <= chars.len(),
    ensures
        i <= literal_end(chars, i) <= chars.len(),
        i < chars.len() && !is_terminator(chars[i]) ==> i < literal_end(chars, i),
    decreases chars.len() - i,
{
    if 0 <= i < chars.len() && !is_terminator(chars[i]) {
        lemma_literal_end(chars, i + 1);
    }
}

/// The message for a character that may not stand in a number.
pub open spec fn number_message(c: char) -> Seq<char> {
    "Invalid char '"@.push(c) + "' for number."@
}

/// A number, which begins with a digit at `at`. A terminator or the end of
/// the text has to follow it; an error covers the text up to there.
pub open spec fn scan_number(chars: Seq<char>, at: int) -> Scan {
    let stop = literal_end(chars, at);
    match number_shape(chars, at) {
        Err(message) => Scan::Invalid(message, stop),
        Ok(shape) => if shape.end != stop {
            Scan::Invalid(number_message(chars[shape.end]), stop)
        } else {
            match number_token(chars, shape) {
                Err(message) => Scan::Invalid(message, stop),
                Ok(token) => Scan::Token(token, stop),
            }
        },
    }
}

/// More digits never write a smaller number.
pub proof fn lemma_value_grows(chars: Seq<char>, from: int, i: int, to: int, radix: int)
    requires
        0 <= from <= i <= to <= chars.len(),
        radix >= 1,
        forall|j: int| from <= j < to ==> is_hex_digit(#[trigger] chars[j]) || chars[j] == '_',
    ensures
        value_of(chars, from, i, radix) <= value_of(chars, from, to, radix),
    decreases to - i,
{
    if i < to {
        lemma_value_grows(chars, from, i, to - 1, radix);
        let before = value_of(chars, from, to - 1, radix);
        assert(before * radix >= before) by (nonlinear_arith)
            requires
                before >= 0,
                radix >= 1,
        ;
    }
}

/// The number that the digits of `chars[from..to]` write, unless it is
/// above `limit`.
fn read_value(chars: &Vec<char>, from: usize, to: usize, radix: u8, limit: u64) -> (r: Option<u64>)
    requires
        from <= to <= chars.len(),
        radix == 2 || radix == 10 || radix == 16,
        forall|j: int|
            from <= j < to ==> is_digit_of(#[trigger] chars@[j], radix as int) || chars@[j] == '_',
    ensures
        r is Some == (value_of(chars@, from as int, to as int, radix as int) <= limit),
        r matches Some(v) ==> v == value_of(chars@, from as int, to as int, radix as int),
{
    let mut value: u64 = 0;
    let mut i = from;
    while i < to
        invariant
            from <= i <= to <= chars.len(),
            radix == 2 || radix == 10 || radix == 16,
            forall|j: int|
                from <= j < to ==> is_digit_of(#[trigger] chars@[j], radix as int) || chars@[j]
                    == '_',
            value == value_of(chars@, from as int, i as int, radix as int),
            value <= limit,
        decreases to - i,
    {
        let c = chars[i];
        if c != '_' {
            let known = digit_of(c, radix);
            let d = value_of_digit(c);
            assert(value * radix <= 0xffff_ffff_ffff_ffff * 16) by (nonlinear_arith)
                requires
                    0 <= value <= 0xffff_ffff_ffff_ffff,
                    0 <= radix <= 16,
            ;
            let next: u128 = (value as u128) * (radix as u128) + (d as u128);
            if next > limit as u128 {
                proof {
                    lemma_value_grows(chars@, from as int, i + 1, to as int, radix as int);
                }
                return None;
            }
            value = next as u64;
        }
        i += 1;
    }
    Some(value)
}

/// Appends the digits of `chars[from..to]` to `text` and counts them.
fn push_digits(text: &mut String, chars: &Vec<char>, from: usize, to: usize) -> (count: usize)
    requires
        from <= to <= chars.len(),
    ensures
        final(text)@ == old(text)@ + digits_of(chars@, from as int, to as int),
        count == digits_of(chars@, from as int, to as int).len(),
{
    let mut count: usize = 0;
    let mut i = from;
    assert(old(text)@ + Seq::<char>::empty() =~= old(text)@);
    while i < to
        invariant
            from <= i <= to <= chars.len(),
            text@ == old(text)@ + digits_of(chars@, from as int, i as int),
            count == digits_of(chars@, from as int, i as int).len(),
            count <= i - from,
        decreases to - i,
    {
        let c = chars[i];
        if c != '_' {
            text.push(c);
            count += 1;
            assert(old(text)@ + digits_of(chars@, from as int, i as int).push(c) =~= (old(text)@
                + digits_of(chars@, from as int, i as int)).push(c));
        }
        i += 1;
    }
    count
}

/// The index behind the run of letters and digits that begins at `i`.
fn skip_word(chars: &Vec<char>, i: usize) -> (end: usize)
    requires
        i <= chars.len(),
    ensures
        end == word_end(chars@, i as int),
        i <= end <= chars.len(),
        forall|j: int| i <= j < end ==> !is_terminator(#[trigger] chars@[j]),
{
    let mut end = i;
    while end < chars.len() && (('a' <= chars[end] && chars[end] <= 'z') || ('A' <= chars[end]
        && chars[end] <= 'Z') || decimal_digit(chars[end]))
        invariant
            i <= end <= chars.len(),
            word_end(chars@, i as int) == word_end(chars@, end as int),
            forall|j: int| i <= j < end ==> !is_terminator(#[trigger] chars@[j]),
        decreases chars.len() - end,
    {
        end += 1;
    }
    end
}

/// The index of the next terminator from `i` on.
fn skip_literal(chars: &Vec<char>, i: usize) -> (end: usize)
    requires
        i <= chars.len(),
    ensures
        end == literal_end(chars@, i as int),
        i <= end <= chars.len(),
        i < chars.len() && !is_terminator(chars@[i as int]) ==> i < end,
{
    let mut end = i;
    proof {
        lemma_literal_end(chars@, i as int);
    }
    while end < chars.len() && !terminator(chars[end])
        invariant
            i <= end <= chars.len(),
            literal_end(chars@, i as int) == literal_end(chars@, end as int),
        decreases chars.len() - end,
    {
        end += 1;
    }
    end
}

/// Whether `chars[from..to]` holds no terminator.
pub open spec fn no_terminator(chars: Seq<char>, from: int, to: int) -> bool {
    forall|j: int| from <= j < to ==> !is_terminator(#[trigger] chars[j])
}

/// Whether `chars[from..to]` is made of digits of the radix and
/// underscores.
pub open spec fn is_run(chars: Seq<char>, from: int, to: int, radix: int) -> bool {
    forall|j: int| from <= j < to ==> is_digit_of(#[trigger] chars[j], radix) || chars[j] == '_'
}

/// Whether a shape lies in the text in order: each part behind the one
/// before it, and every run made of digits of its radix and underscores.
pub open spec fn shape_in_order(chars: Seq<char>, at: int, shape: Shape) -> bool {
    &&& shape.radix == 2 || shape.radix == 10 || shape.radix == 16
    &&& at <= shape.whole.0 < shape.whole.1 <= shape.end <= chars.len()
    &&& is_run(chars, shape.whole.0, shape.whole.1, shape.radix)
    &&& shape.fraction matches Some((from, to)) ==> {
        &&& shape.whole.1 < from <= to <= shape.end
        &&& is_run(chars, from, to, shape.radix)
    }
    &&& shape.exponent matches Some((_, from, to)) ==> {
        &&& shape.whole.1 < from <= to <= shape.end
        &&& is_run(chars, from, to, 10)
    }
    &&& shape.suffix matches Some((from, to)) ==> shape.whole.1 <= from <= to <= shape.end
}

/// A run of digits holds no terminator.
proof fn lemma_run_no_terminator(chars: Seq<char>, from: int, to: int, radix: int)
    requires
        is_run(chars, from, to, radix),
    ensures
        no_terminator(chars, from, to),
{
    assert forall|j: int| from <= j < to implies !is_terminator(#[trigger] chars[j]) by {
        assert(is_digit_of(chars[j], radix) || chars[j] == '_');
    }
}

/// The mantissa of a literal, as indices into the text.
pub struct MantissaShape {
    pub radix: u8,
    pub whole: (usize, usize),
    pub fraction: Option<(usize, usize)>,
    pub end: usize,
}

impl View for MantissaShape {
    type V = Mantissa;

    open spec fn view(&self) -> Mantissa {
        Mantissa {
            radix: self.radix as int,
            whole: (self.whole.0 as int, self.whole.1 as int),
            fraction: match self.fraction {
                Some((a, b)) => Some((a as int, b as int)),
                None => None,
            },
            end: self.end as int,
        }
    }
}

/// Whether a mantissa lies in the text in order.
pub open spec fn mantissa_in_order(chars: Seq<char>, at: int, m: Mantissa) -> bool {
    &&& m.radix == 2 || m.radix == 10 || m.radix == 16
    &&& at <= m.whole.0 < m.whole.1 <= m.end <= chars.len()
    &&& is_run(chars, m.whole.0, m.whole.1, m.radix)
    &&& m.fraction matches Some((from, to)) ==> {
        &&& m.whole.1 < from <= to
        &&& to == m.end
        &&& is_run(chars, from, to, m.radix)
    }
    &&& no_terminator(chars, at, m.end)
}

/// Finds the mantissa of the literal that begins at `at`.
fn mantissa_of(chars: &Vec<char>, at: usize) -> (r: Result<MantissaShape, String>)
    requires
        at < chars.len(),
        is_decimal_digit(chars@[at as int]),
    ensures
        match mantissa_shape(chars@, at as int) {
            Err(message) => r matches Err(m) && m@ == message,
            Ok(mantissa) => r matches Ok(found) && found@ == mantissa && mantissa_in_order(
                chars@,
                at as int,
                mantissa,
            ),
        },
{
    let radix: u8 = if chars[at] == '0' && has_char_at(chars, at + 1, 'x') {
        16
    } else if chars[at] == '0' && has_char_at(chars, at + 1, 'b') {
        2
    } else {
        10
    };
    let start = if radix == 10 {
        at
    } else {
        at + 2
    };
    if !(start < chars.len() && digit_of(chars[start], radix)) {
        return Err("Expect a digit behind the radix prefix.".to_owned());
    }
    let whole_end = skip_run(chars, start, radix);
    proof {
        lemma_run_no_terminator(chars@, start as int, whole_end as int, radix as int);
    }
    if radix != 2 && has_char_at(chars, whole_end, '.') {
        if !(whole_end + 1 < chars.len() && digit_of(chars[whole_end + 1], radix)) {
            return Err("Expect a digit behind the point.".to_owned());
        }
        let end = skip_run(chars, whole_end + 1, radix);
        proof {
            lemma_run_no_terminator(chars@, whole_end + 1, end as int, radix as int);
        }
        Ok(
            MantissaShape {
                radix,
                whole: (start, whole_end),
                fraction: Some((whole_end + 1, end)),
                end,
            },
        )
    } else {
        Ok(MantissaShape { radix, whole: (start, whole_end), fraction: None, end: whole_end })
    }
}

/// Finds the exponent of a literal of the radix, if one begins at `i`.
fn exponent_at(chars: &Vec<char>, i: usize, radix: u8) -> (r: Result<
    (Option<(bool, usize, usize)>, usize),
    String,
>)
    requires
        i <= chars.len(),
        radix == 2 || radix == 10 || radix == 16,
    ensures
        match exponent_shape(chars@, i as int, radix as int) {
            Err(message) => r matches Err(m) && m@ == message,
            Ok((exponent, end)) => r matches Ok((found, found_end)) && found_end == end && i
                <= end <= chars.len() && no_terminator(chars@, i as int, end) && (match exponent {
                None => found is None,
                Some((negative, from, to)) => found == Some((negative, from as usize, to as usize))
                    && i < from <= to && to == end && is_run(chars@, from, to, 10),
            }),
        },
{
    let marked = if radix == 10 {
        has_char_at(chars, i, 'e') || has_char_at(chars, i, 'E')
    } else if radix == 16 {
        has_char_at(chars, i, 'p') || has_char_at(chars, i, 'P')
    } else {
        false
    };
    if marked {
        let negative = has_char_at(chars, i + 1, '-');
        let digits = if negative || has_char_at(chars, i + 1, '+') {
            i + 2
        } else {
            i + 1
        };
        if !(digits < chars.len() && decimal_digit(chars[digits])) {
            return Err("Expect a digit for the exponent.".to_owned());
        }
        let end = skip_run(chars, digits, 10);
        proof {
            lemma_run_no_terminator(chars@, digits as int, end as int, 10);
        }
        Ok((Some((negative, digits, end)), end))
    } else {
        Ok((None, i))
    }
}

/// Finds the type suffix, if one begins at `i`.
fn suffix_at(chars: &Vec<char>, i: usize) -> (r: (Option<(usize, usize)>, usize))
    requires
        i <= chars.len(),
    ensures
        r.1 == suffix_shape(chars@, i as int).1,
        i <= r.1 <= chars.len(),
        no_terminator(chars@, i as int, r.1 as int),
        match suffix_shape(chars@, i as int).0 {
            None => r.0 is None,
            Some((from, to)) => r.0 == Some((from as usize, to as usize)) && from == i && to
                == r.1,
        },
{
    if has_char_at(chars, i, 'i') || has_char_at(chars, i, 'u') || has_char_at(chars, i, 'f') {
        let end = skip_word(chars, i);
        (Some((i, end)), end)
    } else {
        (None, i)
    }
}

/// Finds the parts of the number literal that begins at `at`.
fn shape_of(chars: &Vec<char>, at: usize) -> (r: Result<NumberShape, String>)
    requires
        at < chars.len(),
        is_decimal_digit(chars@[at as int]),
    ensures
        match number_shape(chars@, at as int) {
            Err(message) => r matches Err(m) && m@ == message,
            Ok(shape) => r matches Ok(found) && found@ == shape && shape_in_order(
                chars@,
                at as int,
                shape,
            ) && shape.end <= literal_end(chars@, at as int),
        },
{
    let mantissa = mantissa_of(chars, at)?;
    let (exponent, number_end) = exponent_at(chars, mantissa.end, mantissa.radix)?;
    let (suffix, end) = suffix_at(chars, number_end);
    proof {
        assert(no_terminator(chars@, at as int, end as int));
        lemma_literal_covers(chars@, at as int, end as int);
    }
    Ok(
        NumberShape {
            radix: mantissa.radix,
            whole: mantissa.whole,
            fraction: mantissa.fraction,
            exponent,
            suffix,
            end,
        },
    )
}

/// The exponent of a floating-point literal of the shape.
fn exponent_of(chars: &Vec<char>, shape: &NumberShape, behind_point: usize) -> (r: i64)
    requires
        shape_in_order(chars@, 0, shape@),
        behind_point as int == (match shape@.fraction {
            Some((from, to)) => digits_of(chars@, from, to).len() as int,
            None => 0,
        }),
    ensures
        r == float_exponent(chars@, shape@),
{
    let written: i128 = match shape.exponent {
        Some((negative, from, to)) => {
            let size: u64 = match read_value(chars, from, to, 10, 0x1000_0000_0000_0000) {
                Some(v) => v,
                None => 0x1000_0000_0000_0000,
            };
            if negative {
                -(size as i128)
            } else {
                size as i128
            }
        },
        None => 0,
    };
    let scaled: i128 = if shape.radix == 16 {
        4 * (behind_point as i128)
    } else {
        behind_point as i128
    };
    let exponent = written - scaled;
    if exponent < -0x8000_0000_0000_0000 {
        -0x8000_0000_0000_0000
    } else if exponent > 0x7fff_ffff_ffff_ffff {
        0x7fff_ffff_ffff_ffff
    } else {
        exponent as i64
    }
}

/// Builds the token of a literal of the shape.
fn token_of_shape(chars: &Vec<char>, shape: &NumberShape) -> (r: Result<Token, String>)
    requires
        shape_in_order(chars@, 0, shape@),
    ensures
        match number_token(chars@, shape@) {
            Err(message) => r matches Err(m) && m@ == message,
            Ok(token) => r matches Ok(found) && found@ == token,
        },
{
    let named = match shape.suffix {
        Some((from, to)) => kind_of_suffix(chars, from, to),
        None => None,
    };
    if shape.suffix.is_some() && named.is_none() {
        return Err("Invalid number type.".to_owned());
    }
    let floating = match named {
        Some(k) => k.is_floating(),
        None => false,
    };
    if shape.fraction.is_some() || shape.exponent.is_some() || floating {
        if shape.radix == 2 {
            return Err("A binary number has to be an integer.".to_owned());
        }
        if named.is_some() && !floating {
            return Err("A floating point number has to be of the type f32 or f64.".to_owned());
        }
        let mut digits = String::new();
        push_digits(&mut digits, chars, shape.whole.0, shape.whole.1);
        let behind_point = match shape.fraction {
            Some((from, to)) => push_digits(&mut digits, chars, from, to),
            None => 0,
        };
        proof {
            let whole = digits_of(chars@, shape@.whole.0, shape@.whole.1);
            assert(Seq::<char>::empty() + whole =~= whole);
            assert(whole + Seq::<char>::empty() =~= whole);
        }
        let exponent = exponent_of(chars, shape, behind_point);
        let literal = FloatLiteral {
            negative: false,
            magnitude: if shape.radix == 16 {
                FloatMagnitude::Hexadecimal { digits, exponent }
            } else {
                FloatMagnitude::Decimal { digits, exponent }
            },
        };
        let single = match named {
            Some(NumberKind::F32) => true,
            _ => false,
        };
        Ok(
            Token::Number(
                if single {
                    NumberToken::F32(literal)
                } else {
                    NumberToken::F64(literal)
                },
            ),
        )
    } else {
        let kind = match named {
            Some(k) => k,
            None => NumberKind::I32,
        };
        match read_value(chars, shape.whole.0, shape.whole.1, shape.radix, kind.largest()) {
            Some(value) => Ok(Token::Number(kind.integer_token(value))),
            None => {
                let mut message = String::from_str("The number is too large for the type ");
                message.append(kind.label());
                message.append(".");
                Err(message)
            },
        }
    }
}

/// Reads a number.
pub fn number(chars: &Vec<char>, at: usize) -> (r: Scanned)
    requires
        at < chars.len(),
        is_decimal_digit(chars@[at as int]),
    ensures
        r@ == scan_number(chars@, at as int),
        r@.within(at as int, chars.len() as int),
{
    let stop = skip_literal(chars, at);
    match shape_of(chars, at) {
        Err(message) => Scanned::Invalid(message, stop),
        Ok(shape) => {
            if shape.end != stop {
                Scanned::Invalid(
                    with_char("Invalid char '", chars[shape.end], "' for number."),
                    stop,
                )
            } else {
                match token_of_shape(chars, &shape) {
                    Err(message) => Scanned::Invalid(message, stop),
                    Ok(token) => Scanned::Token(token, stop),
                }
            }
        },
    }
}

} // verus!
