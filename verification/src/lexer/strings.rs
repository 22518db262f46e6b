use vstd::prelude::*;
use crate::lexer::scan::{
    blank, digit_value, hex_digit, is_blank, is_hex_digit,
    value_of_digit, with_char, Scan, Scanned,
};
use crate::text::{is_scalar_value, string_of};
use crate::token::{Token, TokenView};

verus! {

/// What reading an escape sequence gives.
pub ghost enum Escape {
    /// The character that the sequence stands for, and the index behind
    /// the sequence.
    Char(char, int),
    Invalid(Seq<char>, int),
    Incomplete,
}

/// What reading an escape sequence gave.
pub enum Escaped {
    Char(char, usize),
    Invalid(String, usize),
    Incomplete,
}

impl View for Escaped {
    type V = Escape;

    open spec fn view(&self) -> Escape {
        match self {
            Escaped::Char(c, end) => Escape::Char(*c, *end as int),
            Escaped::Invalid(m, end) => Escape::Invalid(m@, *end as int),
            Escaped::Incomplete => Escape::Incomplete,
        }
    }
}

/// Where the run of hexadecimal digits that begins at `i` ends.
pub open spec fn hex_run_end(chars: Seq<char>, i: int) -> int
    decreases chars.len() - i,
{
    if 0 <= i < chars.len() && is_hex_digit(chars[i]) {
        hex_run_end(chars, i + 1)
    } else {
        i
    }
}

/// The number that the hexadecimal digits `chars[from..to]` write.
pub open spec fn hex_value(chars: Seq<char>, from: int, to: int) -> int
    decreases to - from,
{
    if from < to {
        hex_value(chars, from, to - 1) * 16 + digit_value(chars[to - 1])
    } else {
        0
    }
}

/// A run of hexadecimal digits ends within the text and holds nothing else.
pub proof fn lemma_hex_run_end(chars: Seq<char>, i: int)
    requires
        0 <= i <= chars.len(),
    ensures
        i <= hex_run_end(chars, i) <= chars.len(),
        forall|j: int| i <= j < hex_run_end(chars, i) ==> is_hex_digit(#[trigger] chars[j]),
    decreases chars.len() - i,
{
    if 0 <= i < chars.len() && is_hex_digit(chars[i]) {
        lemma_hex_run_end(chars, i + 1);
    }
}

/// The message for a character that no escape sequence begins with.
pub open spec fn escape_message(c: char) -> Seq<char> {
    "Unsupported escape char '"@.push(c) + "'."@
}

/// The escape sequence whose character behind the backslash stands at
/// `i`: one of `\\ \' \" \t \r \n \0`, or `\u{...}` with one to six
/// hexadecimal digits that write a Unicode scalar value.
pub open spec fn scan_escape(chars: Seq<char>, i: int) -> Escape {
    if !(0 <= i < chars.len()) {
        Escape::Incomplete
    } else {
        let c = chars[i];
        if c == '\\' || c == '\'' || c == '"' {
            Escape::Char(c, i + 1)
        } else if c == 't' {
            Escape::Char('\t', i + 1)
        } else if c == 'r' {
            Escape::Char('\r', i + 1)
        } else if c == 'n' {
            Escape::Char('\n', i + 1)
        } else if c == '0' {
            Escape::Char('\0', i + 1)
        } else if c == 'u' {
            if i + 1 >= chars.len() {
                Escape::Incomplete
            } else if chars[i + 1] != '{' {
                Escape::Invalid("Missing the brace for unicode escape sequence."@, i + 2)
            } else {
                let end = hex_run_end(chars, i + 2);
                let code = hex_value(chars, i + 2, end);
                if end >= chars.len() {
                    Escape::Incomplete
                } else if chars[end] != '}' {
                    Escape::Invalid("Invalid character for unicode escape sequence."@, end + 1)
                } else if end == i + 2 {
                    Escape::Invalid("Empty unicode code point."@, end + 1)
                } else if end - (i + 2) > 6 {
                    Escape::Invalid(
                        "Only max 6 hexadecimal digits are allowed for unicode point code."@,
                        end + 1,
                    )
                } else if !is_scalar_value(code as u32) {
                    Escape::Invalid("Invalid unicode code point."@, end + 1)
                } else {
                    Escape::Char(code as u32 as char, end + 1)
                }
            }
        } else {
            Escape::Invalid(escape_message(c), i + 1)
        }
    }
}

/// The number that up to six hexadecimal digits write.
fn small_hex_value(chars: &Vec<char>, from: usize, to: usize) -> (r: u32)
    requires
        from <= to <= chars.len(),
        to - from <= 6,
        forall|j: int| from <= j < to ==> is_hex_digit(#[trigger] chars@[j]),
    ensures
        r == hex_value(chars@, from as int, to as int),
        r < 0x100_0000,
{
    let mut value: u32 = 0;
    let mut limit: u32 = 1;
    let mut i = from;
    while i < to
        invariant
            from <= i <= to <= chars.len(),
            to - from <= 6,
            forall|j: int| from <= j < to ==> is_hex_digit(#[trigger] chars@[j]),
            value == hex_value(chars@, from as int, i as int),
            value < limit,
            i - from == 0 ==> limit == 1,
            i - from == 1 ==> limit == 0x10,
            i - from == 2 ==> limit == 0x100,
            i - from == 3 ==> limit == 0x1000,
            i - from == 4 ==> limit == 0x1_0000,
            i - from == 5 ==> limit == 0x10_0000,
            i - from == 6 ==> limit == 0x100_0000,
        decreases to - i,
    {
        let d = value_of_digit(chars[i]) as u32;
        value = value * 16 + d;
        limit = limit * 16;
        i += 1;
    }
    value
}

/// Reads the escape sequence whose character behind the backslash stands
/// at `i`.
pub fn escape(chars: &Vec<char>, i: usize) -> (r: Escaped)
    requires
        i <= chars.len(),
    ensures
        r@ == scan_escape(chars@, i as int),
        r@ matches Escape::Char(_, end) ==> i < end <= chars.len(),
        r@ matches Escape::Invalid(_, end) ==> i < end <= chars.len(),
{
    if i >= chars.len() {
        return Escaped::Incomplete;
    }
    let c = chars[i];
    if c == '\\' || c == '\'' || c == '"' {
        Escaped::Char(c, i + 1)
    } else if c == 't' {
        Escaped::Char('\t', i + 1)
    } else if c == 'r' {
        Escaped::Char('\r', i + 1)
    } else if c == 'n' {
        Escaped::Char('\n', i + 1)
    } else if c == '0' {
        Escaped::Char('\0', i + 1)
    } else if c == 'u' {
        if i + 1 >= chars.len() {
            Escaped::Incomplete
        } else if chars[i + 1] != '{' {
            Escaped::Invalid("Missing the brace for unicode escape sequence.".to_owned(), i + 2)
        } else {
            let mut end = i + 2;
            proof {
                lemma_hex_run_end(chars@, i + 2);
            }
            while end < chars.len() && hex_digit(chars[end])
                invariant
                    i + 2 <= end <= chars.len(),
                    hex_run_end(chars@, i + 2) == hex_run_end(chars@, end as int),
                decreases chars.len() - end,
            {
                end += 1;
            }
            if end >= chars.len() {
                Escaped::Incomplete
            } else if chars[end] != '}' {
                Escaped::Invalid(
                    "Invalid character for unicode escape sequence.".to_owned(),
                    end + 1,
                )
            } else if end == i + 2 {
                Escaped::Invalid("Empty unicode code point.".to_owned(), end + 1)
            } else if end - (i + 2) > 6 {
                Escaped::Invalid(
                    "Only max 6 hexadecimal digits are allowed for unicode point code.".to_owned(),
                    end + 1,
                )
            } else {
                let code = small_hex_value(chars, i + 2, end);
                match char::from_u32(code) {
                    Some(c) => Escaped::Char(c, end + 1),
                    None => Escaped::Invalid("Invalid unicode code point.".to_owned(), end + 1),
                }
            }
        }
    } else {
        Escaped::Invalid(with_char("Unsupported escape char '", c, "'."), i + 1)
    }
}

/// A character literal, which begins with `'` at `at`: one character or
/// one escape sequence between single quotes.
pub open spec fn scan_char(chars: Seq<char>, at: int) -> Scan {
    let i = at + 1;
    if i >= chars.len() {
        Scan::Incomplete("Incomplete char."@)
    } else if chars[i] == '\'' {
        Scan::Invalid("Empty char."@, i + 1)
    } else {
        let body = if chars[i] == '\\' {
            scan_escape(chars, i + 1)
        } else {
            Escape::Char(chars[i], i + 1)
        };
        match body {
            Escape::Incomplete => Scan::Incomplete("Incomplete char."@),
            Escape::Invalid(message, end) => Scan::Invalid(message, end),
            Escape::Char(c, end) => if end >= chars.len() {
                Scan::Incomplete("Incomplete char."@)
            } else if chars[end] != '\'' {
                Scan::Invalid("Missing end single quote for char."@, end + 1)
            } else {
                Scan::Token(TokenView::Char(c), end + 1)
            },
        }
    }
}

/// Reads a character literal.
pub fn character(chars: &Vec<char>, at: usize) -> (r: Scanned)
    requires
        at < chars.len(),
    ensures
        r@ == scan_char(chars@, at as int),
        r@.within(at as int, chars.len() as int),
{
    let i = at + 1;
    if i >= chars.len() {
        return Scanned::Incomplete("Incomplete char.".to_owned());
    }
    if chars[i] == '\'' {
        return Scanned::Invalid("Empty char.".to_owned(), i + 1);
    }
    let body = if chars[i] == '\\' {
        escape(chars, i + 1)
    } else {
        Escaped::Char(chars[i], i + 1)
    };
    match body {
        Escaped::Incomplete => Scanned::Incomplete("Incomplete char.".to_owned()),
        Escaped::Invalid(message, end) => Scanned::Invalid(message, end),
        Escaped::Char(c, end) => if end >= chars.len() {
            Scanned::Incomplete("Incomplete char.".to_owned())
        } else if chars[end] != '\'' {
            Scanned::Invalid("Missing end single quote for char.".to_owned(), end + 1)
        } else {
            Scanned::Token(Token::Char(c), end + 1)
        },
    }
}

/// The rest of a string, read from `i` on, with `text` read so far: up to
/// the closing double quote, with each escape sequence replaced by its
/// character.
pub open spec fn scan_string_from(chars: Seq<char>, i: int, text: Seq<char>) -> Scan
    decreases chars.len() - i,
{
    if !(0 <= i < chars.len()) {
        Scan::Incomplete("Incomplete string."@)
    } else if chars[i] == '"' {
        Scan::Token(TokenView::String(text), i + 1)
    } else if chars[i] == '\\' {
        match scan_escape(chars, i + 1) {
            Escape::Incomplete => Scan::Incomplete("Incomplete string."@),
            Escape::Invalid(message, end) => Scan::Invalid(message, end),
            Escape::Char(c, end) => if i < end {
                scan_string_from(chars, end, text.push(c))
            } else {
                Scan::Incomplete("Incomplete string."@)
            },
        }
    } else {
        scan_string_from(chars, i + 1, text.push(chars[i]))
    }
}

/// A string, which begins with `"` at `at`.
pub open spec fn scan_string(chars: Seq<char>, at: int) -> Scan {
    scan_string_from(chars, at + 1, Seq::empty())
}

/// Reads a string.
pub fn string(chars: &Vec<char>, at: usize) -> (r: Scanned)
    requires
        at < chars.len(),
    ensures
        r@ == scan_string(chars@, at as int),
        r@.within(at as int, chars.len() as int),
{
    let mut text = String::new();
    let mut i = at + 1;
    while i < chars.len()
        invariant
            at < i <= chars.len(),
            scan_string(chars@, at as int) == scan_string_from(chars@, i as int, text@),
        decreases chars.len() - i,
    {
        let c = chars[i];
        if c == '"' {
            return Scanned::Token(Token::String(text), i + 1);
        } else if c == '\\' {
            match escape(chars, i + 1) {
                Escaped::Incomplete => {
                    return Scanned::Incomplete("Incomplete string.".to_owned());
                },
                Escaped::Invalid(message, end) => {
                    return Scanned::Invalid(message, end);
                },
                Escaped::Char(c, end) => {
                    text.push(c);
                    i = end;
                },
            }
        } else {
            text.push(c);
            i += 1;
        }
    }
    Scanned::Incomplete("Incomplete string.".to_owned())
}

/// Where the first `"` from `i` on stands.
pub open spec fn quote_index(chars: Seq<char>, i: int) -> Option<int>
    decreases chars.len() - i,
{
    if !(0 <= i < chars.len()) {
        None
    } else if chars[i] == '"' {
        Some(i)
    } else {
        quote_index(chars, i + 1)
    }
}

/// The double quote that is found stands where the search began or behind it.
pub proof fn lemma_quote_index(chars: Seq<char>, i: int)
    requires
        0 <= i,
    ensures
        quote_index(chars, i) matches Some(q) ==> i <= q < chars.len() && chars[q] == '"',
    decreases chars.len() - i,
{
    if 0 <= i < chars.len() && chars[i] != '"' {
        lemma_quote_index(chars, i + 1);
    }
}

/// The index of the first `"` from `i` on.
pub fn find_quote(chars: &Vec<char>, i: usize) -> (r: Option<usize>)
    requires
        i <= chars.len(),
    ensures
        r is Some == quote_index(chars@, i as int) is Some,
        r matches Some(q) ==> quote_index(chars@, i as int) == Some(q as int) && i <= q
            < chars.len(),
{
    let mut q = i;
    while q < chars.len()
        invariant
            i <= q <= chars.len(),
            quote_index(chars@, i as int) == quote_index(chars@, q as int),
        decreases chars.len() - q,
    {
        if chars[q] == '"' {
            return Some(q);
        }
        q += 1;
    }
    None
}

/// A raw string, which begins with `r"` at `at`: the text up to the next
/// double quote, as it stands.
pub open spec fn scan_raw_string(chars: Seq<char>, at: int) -> Scan {
    match quote_index(chars, at + 2) {
        Some(q) => Scan::Token(TokenView::String(chars.subrange(at + 2, q)), q + 1),
        None => Scan::Incomplete("Incomplete string."@),
    }
}

/// Reads a raw string.
pub fn raw_string(chars: &Vec<char>, at: usize) -> (r: Scanned)
    requires
        at + 2 <= chars.len(),
    ensures
        r@ == scan_raw_string(chars@, at as int),
        r@.within(at as int, chars.len() as int),
{
    match find_quote(chars, at + 2) {
        Some(q) => Scanned::Token(Token::String(string_of(chars, at + 2, q)), q + 1),
        None => Scanned::Incomplete("Incomplete string.".to_owned()),
    }
}

/// Where the first `"""` from `i` on begins.
pub open spec fn triple_quote_index(chars: Seq<char>, i: int) -> Option<int>
    decreases chars.len() - i,
{
    if !(0 <= i && i + 2 < chars.len()) {
        None
    } else if chars[i] == '"' && chars[i + 1] == '"' && chars[i + 2] == '"' {
        Some(i)
    } else {
        triple_quote_index(chars, i + 1)
    }
}

/// The closing mark that is found lies within the text, where the search began
/// or behind it.
pub proof fn lemma_triple_quote_index(chars: Seq<char>, i: int)
    requires
        0 <= i,
    ensures
        triple_quote_index(chars, i) matches Some(q) ==> i <= q && q + 2 < chars.len(),
    decreases chars.len() - i,
{
    if 0 <= i && i + 2 < chars.len() && !(chars[i] == '"' && chars[i + 1] == '"' && chars[i + 2]
        == '"') {
        lemma_triple_quote_index(chars, i + 1);
    }
}

/// Where the text of the body `chars[from..to]` begins: behind the line
/// break that the body begins with, if it begins with one.
pub open spec fn body_start(chars: Seq<char>, from: int, to: int) -> int {
    if from < to && chars[from] == '\n' {
        from + 1
    } else if from + 1 < to && chars[from] == '\r' && chars[from + 1] == '\n' {
        from + 2
    } else {
        from
    }
}

/// Where the last line of `chars[from..to]` begins: behind the last line
/// feed, or at `from` where there is none.
pub open spec fn last_line_start(chars: Seq<char>, from: int, to: int) -> int
    decreases to - from,
{
    if from < to {
        if chars[to - 1] == '\n' {
            to
        } else {
            last_line_start(chars, from, to - 1)
        }
    } else {
        from
    }
}

/// Where the run of blanks that begins at `i` ends, at `to` at the latest.
pub open spec fn blank_run_end(chars: Seq<char>, i: int, to: int) -> int
    decreases to - i,
{
    if 0 <= i < to && i < chars.len() && is_blank(chars[i]) {
        blank_run_end(chars, i + 1, to)
    } else {
        i
    }
}

/// The last line begins within the text it is looked for in.
pub proof fn lemma_last_line_start(chars: Seq<char>, from: int, to: int)
    requires
        from <= to,
    ensures
        from <= last_line_start(chars, from, to) <= to,
    decreases to - from,
{
    if from < to && chars[to - 1] != '\n' {
        lemma_last_line_start(chars, from, to - 1);
    }
}

/// A run of blanks ends within the text it is looked for in.
pub proof fn lemma_blank_run_end(chars: Seq<char>, i: int, to: int)
    requires
        0 <= i <= to <= chars.len(),
    ensures
        i <= blank_run_end(chars, i, to) <= to,
    decreases to - i,
{
    if 0 <= i < to && is_blank(chars[i]) {
        lemma_blank_run_end(chars, i + 1, to);
    }
}

/// The text `chars[i..stop]` with up to `indent` blanks taken from the
/// start of each line; `budget` is how many may still be taken from the
/// line that holds `chars[i]`, and `text` is what was read so far.
pub open spec fn unindented(
    chars: Seq<char>,
    i: int,
    stop: int,
    budget: int,
    indent: int,
    text: Seq<char>,
) -> Seq<char>
    decreases stop - i,
{
    if 0 <= i < stop && i < chars.len() {
        if budget > 0 && is_blank(chars[i]) {
            unindented(chars, i + 1, stop, budget - 1, indent, text)
        } else if chars[i] == '\n' {
            unindented(chars, i + 1, stop, indent, indent, text.push(chars[i]))
        } else {
            unindented(chars, i + 1, stop, 0, indent, text.push(chars[i]))
        }
    } else {
        text
    }
}

/// The text of a string between `"""` marks, whose body is
/// `chars[from..to]`.
///
/// A line break at the start of the body is dropped. Where the last line
/// of the body holds nothing but blanks, it is the line of the closing
/// mark: it is dropped with the line break before it, and as many blanks
/// as it holds are taken from the start of every line.
pub open spec fn trimmed_text(chars: Seq<char>, from: int, to: int) -> Seq<char> {
    let start = body_start(chars, from, to);
    let last = last_line_start(chars, start, to);
    if blank_run_end(chars, last, to) == to {
        let indent = to - last;
        let stop = if last == start {
            start
        } else if last - 1 > start && chars[last - 2] == '\r' {
            last - 2
        } else {
            last - 1
        };
        unindented(chars, start, stop, indent, indent, Seq::empty())
    } else {
        unindented(chars, start, to, 0, 0, Seq::empty())
    }
}

/// A string between `"""` marks, which begins at `at`.
pub open spec fn scan_trimmed_string(chars: Seq<char>, at: int) -> Scan {
    match triple_quote_index(chars, at + 3) {
        Some(q) => Scan::Token(TokenView::String(trimmed_text(chars, at + 3, q)), q + 3),
        None => Scan::Incomplete("Incomplete string."@),
    }
}

/// The text `chars[start..stop]` with up to `indent` blanks taken from the
/// start of each line.
fn unindent(chars: &Vec<char>, start: usize, stop: usize, indent: usize) -> (text: String)
    requires
        start <= stop <= chars.len(),
    ensures
        text@ == unindented(
            chars@,
            start as int,
            stop as int,
            indent as int,
            indent as int,
            Seq::empty(),
        ),
{
    let mut text = String::new();
    let mut budget = indent;
    let mut i = start;
    while i < stop
        invariant
            start <= i <= stop <= chars.len(),
            unindented(chars@, start as int, stop as int, indent as int, indent as int, Seq::empty())
                == unindented(chars@, i as int, stop as int, budget as int, indent as int, text@),
        decreases stop - i,
    {
        let c = chars[i];
        if budget > 0 && blank(c) {
            budget -= 1;
        } else if c == '\n' {
            budget = indent;
            text.push(c);
        } else {
            budget = 0;
            text.push(c);
        }
        i += 1;
    }
    text
}

/// The text of a string between `"""` marks, whose body is
/// `chars[from..to]`.
fn trim_body(chars: &Vec<char>, from: usize, to: usize) -> (text: String)
    requires
        from <= to <= chars.len(),
    ensures
        text@ == trimmed_text(chars@, from as int, to as int),
{
    let start = if from < to && chars[from] == '\n' {
        from + 1
    } else if to - from > 1 && chars[from] == '\r' && chars[from + 1] == '\n' {
        from + 2
    } else {
        from
    };
    let mut last = to;
    while last > start && chars[last - 1] != '\n'
        invariant
            start <= last <= to <= chars.len(),
            last_line_start(chars@, start as int, to as int) == last_line_start(
                chars@,
                start as int,
                last as int,
            ),
        decreases last,
    {
        last -= 1;
    }
    let mut blanks = last;
    proof {
        lemma_blank_run_end(chars@, last as int, to as int);
    }
    while blanks < to && blank(chars[blanks])
        invariant
            last <= blanks <= to <= chars.len(),
            blank_run_end(chars@, last as int, to as int) == blank_run_end(
                chars@,
                blanks as int,
                to as int,
            ),
        decreases to - blanks,
    {
        blanks += 1;
    }
    if blanks == to {
        let stop = if last == start {
            start
        } else if last - 1 > start && chars[last - 2] == '\r' {
            last - 2
        } else {
            last - 1
        };
        unindent(chars, start, stop, to - last)
    } else {
        unindent(chars, start, to, 0)
    }
}

/// Reads a string between `"""` marks.
pub fn trimmed_string(chars: &Vec<char>, at: usize) -> (r: Scanned)
    requires
        at + 3 <= chars.len(),
    ensures
        r@ == scan_trimmed_string(chars@, at as int),
        r@.within(at as int, chars.len() as int),
{
    let mut q = at + 3;
    proof {
        lemma_triple_quote_index(chars@, at + 3);
    }
    while chars.len() - q > 2
        invariant
            at + 3 <= q,
            q <= chars.len(),
            triple_quote_index(chars@, at + 3) == triple_quote_index(chars@, q as int),
        decreases chars.len() - q,
    {
        if chars[q] == '"' && chars[q + 1] == '"' && chars[q + 2] == '"' {
            return Scanned::Token(Token::String(trim_body(chars, at + 3, q)), q + 3);
        }
        q += 1;
    }
    Scanned::Incomplete("Incomplete string.".to_owned())
}

} // verus!
