use vstd::prelude::*;
use vstd::string::*;
use crate::text::chars_of;
use crate::token::{Token, TokenView};

verus! {

/// What reading one token from a text gives.
pub enum Scanned {
    /// A token, and the index of the character behind it.
    Token(Token, usize),
    /// Text that is no token, with a message and the index behind the
    /// offending text.
    Invalid(String, usize),
    /// The text ends within a token, with a message.
    Incomplete(String),
}

/// The mathematical value of a [`Scanned`].
pub ghost enum Scan {
    Token(TokenView, int),
    Invalid(Seq<char>, int),
    Incomplete(Seq<char>),
}

impl View for Scanned {
    type V = Scan;

    open spec fn view(&self) -> Scan {
        match self {
            Scanned::Token(t, end) => Scan::Token(t@, *end as int),
            Scanned::Invalid(m, end) => Scan::Invalid(m@, *end as int),
            Scanned::Incomplete(m) => Scan::Incomplete(m@),
        }
    }
}

impl Scan {
    /// Whether what was read lies within `chars[at..]` and, for a token,
    /// takes at least one character.
    pub open spec fn within(self, at: int, length: int) -> bool {
        match self {
            Scan::Token(_, end) => at < end <= length,
            Scan::Invalid(_, end) => at <= end <= length,
            Scan::Incomplete(_) => true,
        }
    }
}

/// The character at `i`, if the text is that long.
pub open spec fn char_at(chars: Seq<char>, i: int) -> Option<char> {
    if 0 <= i < chars.len() {
        Some(chars[i])
    } else {
        None
    }
}

/// Whether the character at `i` is `c`.
pub open spec fn is_char_at(chars: Seq<char>, i: int, c: char) -> bool {
    0 <= i < chars.len() && chars[i] == c
}

/// Whether the character at `i` is `c`.
pub fn has_char_at(chars: &Vec<char>, i: usize, c: char) -> (r: bool)
    ensures
        r == is_char_at(chars@, i as int, c),
{
    i < chars.len() && chars[i] == c
}

/// A space or a tab.
pub open spec fn is_blank(c: char) -> bool {
    c == ' ' || c == '\t'
}

/// A character that may stand directly behind a name or a number.
pub open spec fn is_terminator(c: char) -> bool {
    c == ' ' || c == '\t' || c == '\r' || c == '\n' || c == ',' || c == ':' || c == '{' || c == '}'
        || c == '[' || c == ']' || c == '(' || c == ')' || c == '/' || c == '\'' || c == '"'
}

/// One of `0` to `9`.
pub open spec fn is_decimal_digit(c: char) -> bool {
    '0' <= c <= '9'
}

/// One of `0` to `9`, `a` to `f` and `A` to `F`.
pub open spec fn is_hex_digit(c: char) -> bool {
    ('0' <= c <= '9') || ('a' <= c <= 'f') || ('A' <= c <= 'F')
}

/// The value of a hexadecimal digit.
pub open spec fn digit_value(c: char) -> int {
    if '0' <= c <= '9' {
        c as u32 - '0' as u32
    } else if 'a' <= c <= 'f' {
        c as u32 - 'a' as u32 + 10
    } else {
        c as u32 - 'A' as u32 + 10
    }
}

/// One of `a` to `z` and `A` to `Z`.
pub open spec fn is_letter(c: char) -> bool {
    ('a' <= c <= 'z') || ('A' <= c <= 'Z')
}

/// A character that may begin a name: a letter, an underscore, or a
/// character from U+00A0 on.
pub open spec fn is_name_start(c: char) -> bool {
    is_letter(c) || c == '_' || (c as u32) >= 0xa0
}

/// A character that may stand in a name: one that may begin it, or a
/// digit.
pub open spec fn is_name_char(c: char) -> bool {
    is_name_start(c) || is_decimal_digit(c)
}

/// Whether `c` is a space or a tab.
pub fn blank(c: char) -> (r: bool)
    ensures
        r == is_blank(c),
{
    c == ' ' || c == '\t'
}

/// Whether `c` may stand directly behind a name or a number.
pub fn terminator(c: char) -> (r: bool)
    ensures
        r == is_terminator(c),
{
    c == ' ' || c == '\t' || c == '\r' || c == '\n' || c == ',' || c == ':' || c == '{' || c == '}'
        || c == '[' || c == ']' || c == '(' || c == ')' || c == '/' || c == '\'' || c == '"'
}

/// Whether `c` is a decimal digit.
pub fn decimal_digit(c: char) -> (r: bool)
    ensures
        r == is_decimal_digit(c),
{
    '0' <= c && c <= '9'
}

/// Whether `c` is a hexadecimal digit.
pub fn hex_digit(c: char) -> (r: bool)
    ensures
        r == is_hex_digit(c),
{
    ('0' <= c && c <= '9') || ('a' <= c && c <= 'f') || ('A' <= c && c <= 'F')
}

/// The value of a hexadecimal digit.
pub fn value_of_digit(c: char) -> (r: u8)
    requires
        is_hex_digit(c),
    ensures
        r == digit_value(c),
        r < 16,
        is_decimal_digit(c) ==> r < 10,
{
    if '0' <= c && c <= '9' {
        (c as u32 - '0' as u32) as u8
    } else if 'a' <= c && c <= 'f' {
        (c as u32 - 'a' as u32 + 10) as u8
    } else {
        (c as u32 - 'A' as u32 + 10) as u8
    }
}

/// Whether `c` may begin a name.
pub fn name_start(c: char) -> (r: bool)
    ensures
        r == is_name_start(c),
{
    ('a' <= c && c <= 'z') || ('A' <= c && c <= 'Z') || c == '_' || (c as u32) >= 0xa0
}

/// Whether `c` may stand in a name.
pub fn name_char(c: char) -> (r: bool)
    ensures
        r == is_name_char(c),
{
    name_start(c) || decimal_digit(c)
}

/// Whether the text `chars[from..to]` is `text`.
pub fn is_text(chars: &Vec<char>, from: usize, to: usize, text: &str) -> (r: bool)
    requires
        from <= to <= chars.len(),
    ensures
        r == (chars@.subrange(from as int, to as int) == text@),
{
    let expected = chars_of(text);
    if expected.len() != to - from {
        return false;
    }
    let mut i: usize = 0;
    while i < expected.len()
        invariant
            from <= to <= chars.len(),
            expected.len() == to - from,
            expected@ == text@,
            i <= expected.len(),
            forall|j: int| 0 <= j < i ==> chars@[from + j] == expected@[j],
        decreases expected.len() - i,
    {
        if chars[from + i] != expected[i] {
            assert(chars@.subrange(from as int, to as int)[i as int] != text@[i as int]);
            return false;
        }
        i += 1;
    }
    assert(chars@.subrange(from as int, to as int) =~= text@);
    true
}

/// The message `before`, the character `c`, and `after`, in a row.
pub fn with_char(before: &str, c: char, after: &str) -> (s: String)
    ensures
        s@ == before@.push(c) + after@,
{
    let mut s = before.to_owned();
    s.push(c);
    s.append(after);
    s
}

} // verus!
