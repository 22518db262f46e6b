pub mod comments;
pub mod data;
pub mod names;
pub mod numbers;
pub mod scan;
pub mod strings;

use vstd::prelude::*;
use crate::charposition::{advance_past, position_past, span};
use crate::error::{AsonError, ErrorView};
use crate::lexer::comments::{block_comment, line_comment, scan_block_comment, scan_line_comment};
use crate::lexer::data::{byte_data, date, scan_bytes, scan_date};
use crate::lexer::names::{name, scan_name};
use crate::lexer::numbers::{number, scan_number};
use crate::lexer::scan::{
    blank, decimal_digit, has_char_at, is_blank, is_char_at, is_decimal_digit, is_name_start,
    name_start, with_char, Scan, Scanned,
};
use crate::lexer::strings::{
    character, raw_string, scan_char, scan_raw_string, scan_string, scan_trimmed_string, string,
    trimmed_string,
};
use crate::location::Location;
use crate::peekableiter::TokenIter;
use crate::token::{Item, ItemView, Token, TokenView, TokenWithRange, TokenWithRangeView};

verus! {

/// The token of a punctuation character.
pub open spec fn punctuation(c: char) -> Option<TokenView> {
    if c == '{' {
        Some(TokenView::LeftBrace)
    } else if c == '}' {
        Some(TokenView::RightBrace)
    } else if c == '[' {
        Some(TokenView::LeftBracket)
    } else if c == ']' {
        Some(TokenView::RightBracket)
    } else if c == '(' {
        Some(TokenView::LeftParen)
    } else if c == ')' {
        Some(TokenView::RightParen)
    } else if c == ':' {
        Some(TokenView::Colon)
    } else if c == ',' {
        Some(TokenView::Comma)
    } else if c == '+' {
        Some(TokenView::Plus)
    } else if c == '-' {
        Some(TokenView::Minus)
    } else {
        None
    }
}

/// The message for a character that begins no token.
pub open spec fn unexpected_message(c: char) -> Seq<char> {
    "Unexpected char '"@.push(c) + "'."@
}

/// The token that begins at `at`, where a character stands that is no
/// blank.
///
/// - A line feed, alone or behind a carriage return, is a line break.
/// - `{ } [ ] ( ) : , + -` are tokens by themselves.
/// - A digit begins a number.
/// - `h"` begins byte data, `d"` a date, `r"` a raw string, `"""` a string
///   that is trimmed, `"` a string, and `'` a character.
/// - `//` and `/*` begin comments.
/// - A letter, an underscore or a character from U+00A0 on begins a name.
/// - Every other character is an error.
pub open spec fn scan_token(chars: Seq<char>, at: int) -> Scan {
    let c = chars[at];
    if c == '\r' && is_char_at(chars, at + 1, '\n') {
        Scan::Token(TokenView::NewLine, at + 2)
    } else if c == '\n' {
        Scan::Token(TokenView::NewLine, at + 1)
    } else if punctuation(c) is Some {
        Scan::Token(punctuation(c)->0, at + 1)
    } else if is_decimal_digit(c) {
        scan_number(chars, at)
    } else if c == 'h' && is_char_at(chars, at + 1, '"') {
        scan_bytes(chars, at)
    } else if c == 'd' && is_char_at(chars, at + 1, '"') {
        scan_date(chars, at)
    } else if c == 'r' && is_char_at(chars, at + 1, '"') {
        scan_raw_string(chars, at)
    } else if c == '"' {
        if is_char_at(chars, at + 1, '"') && is_char_at(chars, at + 2, '"') {
            scan_trimmed_string(chars, at)
        } else {
            scan_string(chars, at)
        }
    } else if c == '\'' {
        scan_char(chars, at)
    } else if c == '/' && is_char_at(chars, at + 1, '/') {
        scan_line_comment(chars, at)
    } else if c == '/' && is_char_at(chars, at + 1, '*') {
        scan_block_comment(chars, at)
    } else if is_name_start(c) {
        scan_name(chars, at)
    } else {
        Scan::Invalid(unexpected_message(c), at + 1)
    }
}

/// The token of a punctuation character.
fn punctuation_token(c: char) -> (r: Option<Token>)
    ensures
        r is Some == punctuation(c) is Some,
        r matches Some(t) ==> punctuation(c) == Some(t@),
{
    if c == '{' {
        Some(Token::LeftBrace)
    } else if c == '}' {
        Some(Token::RightBrace)
    } else if c == '[' {
        Some(Token::LeftBracket)
    } else if c == ']' {
        Some(Token::RightBracket)
    } else if c == '(' {
        Some(Token::LeftParen)
    } else if c == ')' {
        Some(Token::RightParen)
    } else if c == ':' {
        Some(Token::Colon)
    } else if c == ',' {
        Some(Token::Comma)
    } else if c == '+' {
        Some(Token::Plus)
    } else if c == '-' {
        Some(Token::Minus)
    } else {
        None
    }
}

/// Reads the token that begins at `at`.
pub fn token_at(chars: &Vec<char>, at: usize) -> (r: Scanned)
    requires
        at < chars.len(),
    ensures
        r@ == scan_token(chars@, at as int),
        r@.within(at as int, chars.len() as int),
{
    let c = chars[at];
    if c == '\r' && has_char_at(chars, at + 1, '\n') {
        return Scanned::Token(Token::NewLine, at + 2);
    }
    if c == '\n' {
        return Scanned::Token(Token::NewLine, at + 1);
    }
    match punctuation_token(c) {
        Some(token) => {
            return Scanned::Token(token, at + 1);
        },
        None => {},
    }
    if decimal_digit(c) {
        number(chars, at)
    } else if c == 'h' && has_char_at(chars, at + 1, '"') {
        byte_data(chars, at)
    } else if c == 'd' && has_char_at(chars, at + 1, '"') {
        date(chars, at)
    } else if c == 'r' && has_char_at(chars, at + 1, '"') {
        raw_string(chars, at)
    } else if c == '"' {
        if has_char_at(chars, at + 1, '"') && has_char_at(chars, at + 2, '"') {
            trimmed_string(chars, at)
        } else {
            string(chars, at)
        }
    } else if c == '\'' {
        character(chars, at)
    } else if c == '/' && has_char_at(chars, at + 1, '/') {
        line_comment(chars, at)
    } else if c == '/' && has_char_at(chars, at + 1, '*') {
        block_comment(chars, at)
    } else if name_start(c) {
        name(chars, at)
    } else {
        Scanned::Invalid(with_char("Unexpected char '", c, "'."), at + 1)
    }
}

/// Where the run of blanks that begins at `i` ends.
pub open spec fn blanks_end(chars: Seq<char>, i: int) -> int
    decreases chars.len() - i,
{
    if 0 <= i < chars.len() && is_blank(chars[i]) {
        blanks_end(chars, i + 1)
    } else {
        i
    }
}

/// A run of blanks ends within the text, before a character that is no blank.
pub proof fn lemma_blanks_end(chars: Seq<char>, i: int)
    requires
        0 <= i <= chars.len(),
    ensures
        i <= blanks_end(chars, i) <= chars.len(),
        blanks_end(chars, i) < chars.len() ==> !is_blank(chars[blanks_end(chars, i)]),
    decreases chars.len() - i,
{
    if 0 <= i < chars.len() && is_blank(chars[i]) {
        lemma_blanks_end(chars, i + 1);
    }
}

/// The item that reading a token gave, where the token begins at `at` and
/// `position` is the position of its first character: a token has the
/// range of its text, an error the range of the offending text, and a
/// token that the text ends in the range up to the end of the text.
pub open spec fn item_of(scan: Scan, chars: Seq<char>, at: int, position: Location) -> ItemView {
    match scan {
        Scan::Token(token, end) => Ok(
            TokenWithRangeView { token, range: span(position, chars, at, end) },
        ),
        Scan::Invalid(message, end) => Err(
            ErrorView::MessageWithLocation(message, span(position, chars, at, end)),
        ),
        Scan::Incomplete(message) => Err(
            ErrorView::MessageWithLocation(
                message,
                span(position, chars, at, chars.len() as int),
            ),
        ),
    }
}

/// Where the lexer goes on behind what it read: behind a token, and at the
/// end of the text behind an error.
pub open spec fn resume_at(scan: Scan, chars: Seq<char>) -> int {
    match scan {
        Scan::Token(_, end) => end,
        _ => chars.len() as int,
    }
}

/// The items of the text from `at` on, where `position` is the position of
/// `chars[at]`: the tokens in order, with blanks between them passed over,
/// up to the end of the text or to the first error.
pub open spec fn lexed(chars: Seq<char>, at: int, position: Location) -> Seq<ItemView>
    decreases chars.len() - at,
{
    if 0 <= at <= chars.len() {
        let start = blanks_end(chars, at);
        proof {
            lemma_blanks_end(chars, at);
        }
        if start < chars.len() {
            let here = position_past(position, chars, at, start);
            let scan = scan_token(chars, start);
            let next = resume_at(scan, chars);
            if start < next <= chars.len() {
                seq![item_of(scan, chars, start, here)] + lexed(
                    chars,
                    next,
                    position_past(here, chars, start, next),
                )
            } else {
                seq![item_of(scan, chars, start, here)]
            }
        } else {
            Seq::empty()
        }
    } else {
        Seq::empty()
    }
}

/// The items of a whole text.
pub open spec fn lexed_text(chars: Seq<char>) -> Seq<ItemView> {
    lexed(chars, 0, Location { index: 0, line: 0, column: 0, length: 0 })
}

/// The stage that reads tokens from text.
pub struct Lexer {
    chars: Vec<char>,
    next: usize,
    position: Location,
}

impl Lexer {
    #[verifier::type_invariant]
    spec fn within(&self) -> bool {
        self.next <= self.chars.len()
    }

    /// The text that the lexer reads.
    pub closed spec fn chars(&self) -> Seq<char> {
        self.chars@
    }

    /// The index of the character that is read next.
    pub closed spec fn next_index(&self) -> int {
        self.next as int
    }

    /// The position of the character that is read next.
    pub closed spec fn position(&self) -> Location {
        self.position
    }

    /// A lexer at the start of a text.
    pub fn new(chars: Vec<char>) -> (r: Lexer)
        ensures
            r.chars() == chars@,
            r.next_index() == 0,
            r.position() == (Location { index: 0, line: 0, column: 0, length: 0 }),
            r.stream() == lexed_text(chars@),
    {
        Lexer { chars, next: 0, position: Location::new_position(0, 0, 0) }
    }
}

impl TokenIter for Lexer {
    open spec fn stream(&self) -> Seq<ItemView> {
        lexed(self.chars(), self.next_index(), self.position())
    }

    fn next(&mut self) -> (r: Option<Item>) {
        proof {
            use_type_invariant(&*self);
            lemma_blanks_end(self.chars@, self.next as int);
        }
        let mut start = self.next;
        while start < self.chars.len() && blank(self.chars[start])
            invariant
                self.next <= start <= self.chars.len(),
                blanks_end(self.chars@, self.next as int) == blanks_end(self.chars@, start as int),
            decreases self.chars.len() - start,
        {
            start += 1;
        }
        let here = advance_past(&self.position, &self.chars, self.next, start);
        if start >= self.chars.len() {
            self.next = start;
            self.position = here;
            proof {
                lemma_blanks_end(self.chars@, start as int);
            }
            return None;
        }
        let scanned = token_at(&self.chars, start);
        match scanned {
            Scanned::Token(token, end) => {
                let behind = advance_past(&here, &self.chars, start, end);
                self.next = end;
                self.position = behind;
                let item = Ok(
                    TokenWithRange { token, range: Location::from_position_pair(&here, &behind) },
                );
                assert(old(self).stream().skip(1) =~= self.stream());
                Some(item)
            },
            Scanned::Invalid(message, end) => {
                let behind = advance_past(&here, &self.chars, start, end);
                let full = self.chars.len();
                self.position = advance_past(&here, &self.chars, start, full);
                self.next = full;
                proof {
                    lemma_blanks_end(self.chars@, full as int);
                    assert(old(self).stream().skip(1) =~= self.stream());
                }
                Some(
                    Err(
                        AsonError::MessageWithLocation(
                            message,
                            Location::from_position_pair(&here, &behind),
                        ),
                    ),
                )
            },
            Scanned::Incomplete(message) => {
                let full = self.chars.len();
                let behind = advance_past(&here, &self.chars, start, full);
                self.position = behind;
                self.next = full;
                proof {
                    lemma_blanks_end(self.chars@, full as int);
                    assert(old(self).stream().skip(1) =~= self.stream());
                }
                Some(
                    Err(
                        AsonError::MessageWithLocation(
                            message,
                            Location::from_position_pair(&here, &behind),
                        ),
                    ),
                )
            },
        }
    }
}

} // verus!
