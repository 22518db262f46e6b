use vstd::prelude::*;
use crate::date::{parse_rfc3339, rfc3339_date, Date};
use crate::lexer::scan::{
    digit_value, hex_digit, is_hex_digit, value_of_digit, with_char, Scan, Scanned,
};
use crate::lexer::strings::{find_quote, quote_index};
use crate::text::string_of;
use crate::token::{Token, TokenView};

verus! {

/// White space between the bytes of byte data.
pub open spec fn is_gap(c: char) -> bool {
    c == ' ' || c == '\t' || c == '\r' || c == '\n'
}

/// The message for a character that may not stand in byte data.
pub open spec fn byte_message(c: char) -> Seq<char> {
    "Invalid char '"@.push(c) + "' for hexadecimal byte data."@
}

/// The rest of byte data, read from `i` on, with `bytes` read so far: pairs
/// of hexadecimal digits, each pair a byte, with any white space between
/// the pairs, up to the closing double quote.
pub open spec fn scan_bytes_from(chars: Seq<char>, i: int, bytes: Seq<u8>) -> Scan
    decreases chars.len() - i,
{
    if !(0 <= i < chars.len()) {
        Scan::Incomplete("Incomplete hexadecimal byte data."@)
    } else if chars[i] == '"' {
        Scan::Token(TokenView::HexByteData(bytes), i + 1)
    } else if is_gap(chars[i]) {
        scan_bytes_from(chars, i + 1, bytes)
    } else if is_hex_digit(chars[i]) {
        if i + 1 >= chars.len() {
            Scan::Incomplete("Incomplete hexadecimal byte data."@)
        } else if !is_hex_digit(chars[i + 1]) {
            Scan::Invalid("Expect two hexadecimal digits for each byte."@, i + 2)
        } else {
            scan_bytes_from(
                chars,
                i + 2,
                bytes.push((digit_value(chars[i]) * 16 + digit_value(chars[i + 1])) as u8),
            )
        }
    } else {
        Scan::Invalid(byte_message(chars[i]), i + 1)
    }
}

/// Byte data, which begins with `h"` at `at`.
pub open spec fn scan_bytes(chars: Seq<char>, at: int) -> Scan {
    scan_bytes_from(chars, at + 2, Seq::empty())
}

/// Reads byte data.
pub fn byte_data(chars: &Vec<char>, at: usize) -> (r: Scanned)
    requires
        at + 2 <= chars.len(),
    ensures
        r@ == scan_bytes(chars@, at as int),
        r@.within(at as int, chars.len() as int),
{
    let mut bytes: Vec<u8> = Vec::new();
    let mut i = at + 2;
    while i < chars.len()
        invariant
            at + 2 <= i <= chars.len(),
            scan_bytes(chars@, at as int) == scan_bytes_from(chars@, i as int, bytes@),
        decreases chars.len() - i,
    {
        let c = chars[i];
        if c == '"' {
            return Scanned::Token(Token::HexByteData(bytes), i + 1);
        } else if c == ' ' || c == '\t' || c == '\r' || c == '\n' {
            i += 1;
        } else if hex_digit(c) {
            if i + 1 >= chars.len() {
                return Scanned::Incomplete("Incomplete hexadecimal byte data.".to_owned());
            }
            let low = chars[i + 1];
            if !hex_digit(low) {
                return Scanned::Invalid(
                    "Expect two hexadecimal digits for each byte.".to_owned(),
                    i + 2,
                );
            }
            bytes.push(value_of_digit(c) * 16 + value_of_digit(low));
            i += 2;
        } else {
            return Scanned::Invalid(
                with_char("Invalid char '", c, "' for hexadecimal byte data."),
                i + 1,
            );
        }
    }
    Scanned::Incomplete("Incomplete hexadecimal byte data.".to_owned())
}

/// The token for a date whose text ends at the double quote at `quote`,
/// given what reading the text gave.
pub open spec fn date_scan(parsed: Option<Date>, quote: int) -> Scan {
    match parsed {
        Some(date) => Scan::Token(TokenView::Date(date), quote + 1),
        None => Scan::Invalid("Invalid date time."@, quote + 1),
    }
}

/// A date, which begins with `d"` at `at`: an RFC 3339 date and time up to
/// the next double quote.
pub open spec fn scan_date(chars: Seq<char>, at: int) -> Scan {
    match quote_index(chars, at + 2) {
        Some(q) => date_scan(rfc3339_date(chars.subrange(at + 2, q)), q),
        None => Scan::Incomplete("Incomplete date time."@),
    }
}

/// The token for a date whose text ends at the double quote at `quote`,
/// given what reading the text gave: the date, or an error where the text
/// is no date.
pub fn date_token(parsed: Option<Date>, quote: usize) -> (r: Scanned)
    requires
        quote < usize::MAX,
    ensures
        r@ == date_scan(parsed, quote as int),
{
    match parsed {
        Some(date) => Scanned::Token(Token::Date(date), quote + 1),
        None => Scanned::Invalid("Invalid date time.".to_owned(), quote + 1),
    }
}

/// Reads a date.
pub fn date(chars: &Vec<char>, at: usize) -> (r: Scanned)
    requires
        at + 2 <= chars.len(),
    ensures
        r@ == scan_date(chars@, at as int),
        r@.within(at as int, chars.len() as int),
{
    match find_quote(chars, at + 2) {
        Some(q) => {
            let text = string_of(chars, at + 2, q);
            date_token(parse_rfc3339(text.as_str()), q)
        },
        None => Scanned::Incomplete("Incomplete date time.".to_owned()),
    }
}

} // verus!
