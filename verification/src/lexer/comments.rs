use vstd::prelude::*;
use crate::lexer::scan::{has_char_at, is_char_at, Scan, Scanned};
use crate::text::string_of;
use crate::token::{Comment, CommentView, Token, TokenView};

verus! {

/// Whether a line ends at `i`: with a line feed, or with a carriage return
/// and a line feed.
pub open spec fn is_line_end(chars: Seq<char>, i: int) -> bool {
    is_char_at(chars, i, '\n') || (is_char_at(chars, i, '\r') && is_char_at(chars, i + 1, '\n'))
}

/// Where the line that holds `chars[i]` ends: the index of its line break,
/// or the length of the text.
pub open spec fn line_end(chars: Seq<char>, i: int) -> int
    decreases chars.len() - i,
{
    if 0 <= i < chars.len() && !is_line_end(chars, i) {
        line_end(chars, i + 1)
    } else {
        i
    }
}

/// A line comment, which begins with `//` at `at` and runs to the end of
/// the line. The token holds the text behind the two slashes.
pub open spec fn scan_line_comment(chars: Seq<char>, at: int) -> Scan {
    let end = line_end(chars, at + 2);
    Scan::Token(TokenView::Comment(CommentView::Line(chars.subrange(at + 2, end))), end)
}

/// Where a block comment ends, read from `i` on with `depth` comments
/// open: the index behind the `*/` that closes the outermost of them. A
/// `/*` within a comment opens a comment of its own.
pub open spec fn block_end(chars: Seq<char>, i: int, depth: nat) -> Option<int>
    decreases chars.len() - i,
{
    if 0 <= i < chars.len() {
        if is_char_at(chars, i, '/') && is_char_at(chars, i + 1, '*') {
            block_end(chars, i + 2, depth + 1)
        } else if is_char_at(chars, i, '*') && is_char_at(chars, i + 1, '/') {
            if depth <= 1 {
                Some(i + 2)
            } else {
                block_end(chars, i + 2, (depth - 1) as nat)
            }
        } else {
            block_end(chars, i + 1, depth)
        }
    } else {
        None
    }
}

/// A block comment, which begins with `/*` at `at`. The token holds the
/// text between the outermost marks.
pub open spec fn scan_block_comment(chars: Seq<char>, at: int) -> Scan {
    match block_end(chars, at + 2, 1) {
        Some(end) => Scan::Token(
            TokenView::Comment(CommentView::Block(chars.subrange(at + 2, end - 2))),
            end,
        ),
        None => Scan::Incomplete("Incomplete block comment."@),
    }
}

/// A block comment ends behind where it was read from, within the text.
pub proof fn lemma_block_end(chars: Seq<char>, i: int, depth: nat)
    requires
        0 <= i,
    ensures
        block_end(chars, i, depth) matches Some(end) ==> i + 2 <= end <= chars.len(),
    decreases chars.len() - i,
{
    if 0 <= i < chars.len() {
        if is_char_at(chars, i, '/') && is_char_at(chars, i + 1, '*') {
            lemma_block_end(chars, i + 2, depth + 1);
        } else if is_char_at(chars, i, '*') && is_char_at(chars, i + 1, '/') {
            if depth > 1 {
                lemma_block_end(chars, i + 2, (depth - 1) as nat);
            }
        } else {
            lemma_block_end(chars, i + 1, depth);
        }
    }
}

/// Reads a line comment.
pub fn line_comment(chars: &Vec<char>, at: usize) -> (r: Scanned)
    requires
        at + 2 <= chars.len(),
    ensures
        r@ == scan_line_comment(chars@, at as int),
        r@.within(at as int, chars.len() as int),
{
    let mut i = at + 2;
    while i < chars.len() && !(chars[i] == '\n' || (chars[i] == '\r' && has_char_at(
        chars,
        i + 1,
        '\n',
    )))
        invariant
            at + 2 <= i <= chars.len(),
            line_end(chars@, at + 2) == line_end(chars@, i as int),
        decreases chars.len() - i,
    {
        i += 1;
    }
    Scanned::Token(Token::Comment(Comment::Line(string_of(chars, at + 2, i))), i)
}

/// Reads a block comment.
pub fn block_comment(chars: &Vec<char>, at: usize) -> (r: Scanned)
    requires
        at + 2 <= chars.len(),
    ensures
        r@ == scan_block_comment(chars@, at as int),
        r@.within(at as int, chars.len() as int),
{
    let mut i = at + 2;
    let mut depth: usize = 1;
    proof {
        lemma_block_end(chars@, at + 2, 1);
    }
    while i < chars.len()
        invariant
            at + 2 <= i <= chars.len(),
            1 <= depth <= i,
            block_end(chars@, at + 2, 1) == block_end(chars@, i as int, depth as nat),
        decreases chars.len() - i,
    {
        if chars[i] == '/' && has_char_at(chars, i + 1, '*') {
            i += 2;
            depth += 1;
        } else if chars[i] == '*' && has_char_at(chars, i + 1, '/') {
            i += 2;
            if depth == 1 {
                return Scanned::Token(
                    Token::Comment(Comment::Block(string_of(chars, at + 2, i - 2))),
                    i,
                );
            }
            depth -= 1;
        } else {
            i += 1;
        }
    }
    Scanned::Incomplete("Incomplete block comment.".to_owned())
}

} // verus!
