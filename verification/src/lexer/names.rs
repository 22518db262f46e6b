use vstd::prelude::*;
use crate::lexer::scan::{
    has_char_at, is_char_at, is_name_char, is_terminator, is_text, name_char, terminator,
    with_char, Scan, Scanned,
};
use crate::text::string_of;
use crate::token::{
    FloatLiteral, FloatMagnitude, FloatMagnitudeView, FloatView, NumberToken, NumberTokenView,
    Token, TokenView,
};

verus! {

/// Where the run of name characters that begins at `i` ends.
pub open spec fn name_end(chars: Seq<char>, i: int) -> int
    decreases chars.len() - i,
{
    if 0 <= i < chars.len() && is_name_char(chars[i]) {
        name_end(chars, i + 1)
    } else {
        i
    }
}

/// A run of name characters ends behind where it begins, within the text.
pub proof fn lemma_name_end(chars: Seq<char>, i: int)
    requires
        0 <= i <= chars.len(),
    ensures
        i <= name_end(chars, i) <= chars.len(),
        0 <= i < chars.len() && is_name_char(chars[i]) ==> i < name_end(chars, i),
    decreases chars.len() - i,
{
    if 0 <= i < chars.len() && is_name_char(chars[i]) {
        lemma_name_end(chars, i + 1);
    }
}

/// The literal `NaN`.
pub open spec fn not_a_number() -> FloatView {
    FloatView { negative: false, magnitude: FloatMagnitudeView::NaN }
}

/// The literal `Inf`.
pub open spec fn infinity() -> FloatView {
    FloatView { negative: false, magnitude: FloatMagnitudeView::Infinity }
}

/// The token of a name: a keyword has a token of its own, every other name
/// is an identifier.
pub open spec fn name_token(name: Seq<char>) -> TokenView {
    if name == "true"@ {
        TokenView::Boolean(true)
    } else if name == "false"@ {
        TokenView::Boolean(false)
    } else if name == "NaN"@ || name == "NaN_f64"@ {
        TokenView::Number(NumberTokenView::F64(not_a_number()))
    } else if name == "NaN_f32"@ {
        TokenView::Number(NumberTokenView::F32(not_a_number()))
    } else if name == "Inf"@ || name == "Inf_f64"@ {
        TokenView::Number(NumberTokenView::F64(infinity()))
    } else if name == "Inf_f32"@ {
        TokenView::Number(NumberTokenView::F32(infinity()))
    } else {
        TokenView::Identifier(name)
    }
}

/// The message for a character that may not follow a name.
pub open spec fn name_message(c: char) -> Seq<char> {
    "Invalid char '"@.push(c) + "' for identifier."@
}

/// A name, which begins at `at`: a keyword, an identifier, or two names
/// joined by `::`, which make a variant. A terminator or the end of the
/// text has to follow.
pub open spec fn scan_name(chars: Seq<char>, at: int) -> Scan {
    let end = name_end(chars, at);
    if is_char_at(chars, end, ':') && is_char_at(chars, end + 1, ':') {
        let member_end = name_end(chars, end + 2);
        if member_end == end + 2 {
            Scan::Invalid("Expect a member name behind \"::\"."@, end + 2)
        } else if member_end < chars.len() && !is_terminator(chars[member_end]) {
            Scan::Invalid(name_message(chars[member_end]), member_end + 1)
        } else {
            Scan::Token(
                TokenView::Variant(chars.subrange(at, end), chars.subrange(end + 2, member_end)),
                member_end,
            )
        }
    } else if end < chars.len() && !is_terminator(chars[end]) {
        Scan::Invalid(name_message(chars[end]), end + 1)
    } else {
        Scan::Token(name_token(chars.subrange(at, end)), end)
    }
}

/// The index behind the run of name characters that begins at `i`.
fn skip_name(chars: &Vec<char>, i: usize) -> (end: usize)
    requires
        i <= chars.len(),
    ensures
        end == name_end(chars@, i as int),
        i <= end <= chars.len(),
{
    let mut end = i;
    proof {
        lemma_name_end(chars@, i as int);
    }
    while end < chars.len() && name_char(chars[end])
        invariant
            i <= end <= chars.len(),
            name_end(chars@, i as int) == name_end(chars@, end as int),
        decreases chars.len() - end,
    {
        end += 1;
    }
    end
}

fn float_token(double: bool, magnitude: FloatMagnitude) -> (r: Token)
    requires
        magnitude is NaN || magnitude is Infinity,
    ensures
        r@ == TokenView::Number(
            if double {
                NumberTokenView::F64(FloatView { negative: false, magnitude: magnitude@ })
            } else {
                NumberTokenView::F32(FloatView { negative: false, magnitude: magnitude@ })
            },
        ),
{
    let literal = FloatLiteral { negative: false, magnitude };
    if double {
        Token::Number(NumberToken::F64(literal))
    } else {
        Token::Number(NumberToken::F32(literal))
    }
}

/// The token of the name `chars[from..to]`.
fn token_of_name(chars: &Vec<char>, from: usize, to: usize) -> (r: Token)
    requires
        from <= to <= chars.len(),
    ensures
        r@ == name_token(chars@.subrange(from as int, to as int)),
{
    if is_text(chars, from, to, "true") {
        Token::Boolean(true)
    } else if is_text(chars, from, to, "false") {
        Token::Boolean(false)
    } else if is_text(chars, from, to, "NaN") || is_text(chars, from, to, "NaN_f64") {
        float_token(true, FloatMagnitude::NaN)
    } else if is_text(chars, from, to, "NaN_f32") {
        float_token(false, FloatMagnitude::NaN)
    } else if is_text(chars, from, to, "Inf") || is_text(chars, from, to, "Inf_f64") {
        float_token(true, FloatMagnitude::Infinity)
    } else if is_text(chars, from, to, "Inf_f32") {
        float_token(false, FloatMagnitude::Infinity)
    } else {
        Token::Identifier(string_of(chars, from, to))
    }
}

/// Reads a name.
pub fn name(chars: &Vec<char>, at: usize) -> (r: Scanned)
    requires
        at < chars.len(),
        is_name_char(chars@[at as int]),
    ensures
        r@ == scan_name(chars@, at as int),
        r@.within(at as int, chars.len() as int),
{
    proof {
        lemma_name_end(chars@, at as int);
    }
    let end = skip_name(chars, at);
    if has_char_at(chars, end, ':') && has_char_at(chars, end + 1, ':') {
        let member_end = skip_name(chars, end + 2);
        if member_end == end + 2 {
            Scanned::Invalid("Expect a member name behind \"::\".".to_owned(), end + 2)
        } else if member_end < chars.len() && !terminator(chars[member_end]) {
            Scanned::Invalid(
                with_char("Invalid char '", chars[member_end], "' for identifier."),
                member_end + 1,
            )
        } else {
            Scanned::Token(
                Token::Variant(string_of(chars, at, end), string_of(chars, end + 2, member_end)),
                member_end,
            )
        }
    } else if end < chars.len() && !terminator(chars[end]) {
        Scanned::Invalid(with_char("Invalid char '", chars[end], "' for identifier."), end + 1)
    } else {
        Scanned::Token(token_of_name(chars, at, end), end)
    }
}

} // verus!
