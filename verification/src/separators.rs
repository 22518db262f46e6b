use vstd::prelude::*;
use crate::parser::{
    after_newline, after_separator, after_token, at_end, colon_follows, entries_after,
    lemma_node_advances, lemma_value_of_key_advances, pairs_after, parse_document,
    parse_entries, parse_key_value_pairs, parse_list, parse_node, parse_object, parse_pairs,
    parse_struct_variant, parse_tuple, parse_tuple_variant, parse_value_of_key, parse_values,
    values_after, Failure, Parsed,
};
use crate::token::{ItemView, TokenView};

verus! {

/// Whether the item `b` stands for the item `a` with, at most, a line break
/// in place of a comma and another range: both are errors, or both are
/// tokens and the tokens are the same or `a` is a comma and `b` a line
/// break.
pub open spec fn item_alike(a: ItemView, b: ItemView) -> bool {
    match a {
        Err(_) => b is Err,
        Ok(x) => b is Ok && (b->Ok_0.token == x.token || (x.token is Comma
            && b->Ok_0.token is NewLine)),
    }
}

/// Whether the stream `t` is the stream `s` with line breaks in place of
/// some of its commas, and with any ranges.
pub open spec fn alike(s: Seq<ItemView>, t: Seq<ItemView>) -> bool {
    &&& s.len() == t.len()
    &&& forall|i: int| 0 <= i < s.len() ==> item_alike(#[trigger] s[i], t[i])
}

/// Whether two results are the same value with streams that are alike.
pub open spec fn same_value<T>(a: Parsed<T>, b: Parsed<T>) -> bool {
    a is Ok && b is Ok && a->Ok_0.0 == b->Ok_0.0 && alike(a->Ok_0.1, b->Ok_0.1)
}

pub open spec fn is_closer(token: TokenView) -> bool {
    token is RightParen || token is RightBracket || token is RightBrace
}

/// No comma stands at the front of the stream.
pub open spec fn no_comma_first(s: Seq<ItemView>) -> bool {
    !(s.len() > 0 && s[0] is Ok && s[0]->Ok_0.token is Comma)
}

proof fn lemma_alike_skip(s: Seq<ItemView>, t: Seq<ItemView>, k: int)
    requires
        alike(s, t),
        0 <= k <= s.len(),
    ensures
        alike(s.skip(k), t.skip(k)),
{
    assert forall|i: int| 0 <= i < s.skip(k).len() implies item_alike(
        #[trigger] s.skip(k)[i],
        t.skip(k)[i],
    ) by {
        assert(item_alike(s[i + k], t[i + k]));
    }
}

proof fn lemma_alike_first(s: Seq<ItemView>, t: Seq<ItemView>)
    requires
        alike(s, t),
    ensures
        s.len() > 0 ==> item_alike(s[0], t[0]),
        s.len() > 1 ==> item_alike(s[1], t[1]),
        s.len() > 0 ==> alike(s.skip(1), t.skip(1)),
        s.len() > 1 ==> alike(s.skip(2), t.skip(2)),
{
    if s.len() > 0 {
        lemma_alike_skip(s, t, 1);
    }
    if s.len() > 1 {
        lemma_alike_skip(s, t, 2);
    }
}

proof fn lemma_alike_newline(s: Seq<ItemView>, t: Seq<ItemView>)
    requires
        alike(s, t),
        after_newline(s) is Ok,
        no_comma_first(s),
    ensures
        after_newline(t) is Ok,
        alike(after_newline(s)->Ok_0, after_newline(t)->Ok_0),
{
    lemma_alike_first(s, t);
}

proof fn lemma_alike_token(s: Seq<ItemView>, t: Seq<ItemView>, expected: TokenView, d: Seq<char>)
    requires
        alike(s, t),
        after_token(s, expected, d) is Ok,
        is_closer(expected) || expected is Colon,
    ensures
        after_token(t, expected, d) is Ok,
        alike(after_token(s, expected, d)->Ok_0, after_token(t, expected, d)->Ok_0),
{
    lemma_alike_first(s, t);
}

proof fn lemma_alike_end(s: Seq<ItemView>, t: Seq<ItemView>, closer: TokenView)
    requires
        alike(s, t),
        is_closer(closer),
    ensures
        at_end(s, closer) == at_end(t, closer),
{
    lemma_alike_first(s, t);
}

/// Reading a node gives the same from streams that are alike.
pub proof fn lemma_alike_node(s: Seq<ItemView>, t: Seq<ItemView>)
    requires
        alike(s, t),
        parse_node(s) is Ok,
    ensures
        same_value(parse_node(s), parse_node(t)),
    decreases s.len(), 10int,
{
    lemma_alike_first(s, t);
    match s[0]->Ok_0.token {
        TokenView::Variant(_, _) => {
            if s.len() > 1 && s[1]->Ok_0.token is LeftParen {
                lemma_alike_tuple_variant(s, t);
            } else if s.len() > 1 && s[1]->Ok_0.token is LeftBrace {
                lemma_alike_struct_variant(s, t);
            }
        },
        TokenView::LeftBrace => {
            lemma_alike_object(s, t);
        },
        TokenView::LeftBracket => {
            lemma_alike_list(s, t);
        },
        TokenView::LeftParen => {
            lemma_alike_tuple(s, t);
        },
        _ => {},
    }
}

proof fn lemma_alike_values(s: Seq<ItemView>, t: Seq<ItemView>, closer: TokenView)
    requires
        alike(s, t),
        is_closer(closer),
        parse_values(s, closer) is Ok,
    ensures
        same_value(parse_values(s, closer), parse_values(t, closer)),
    decreases s.len(), 11int,
{
    lemma_alike_end(s, t, closer);
    if !at_end(s, closer) {
        lemma_alike_node(s, t);
        lemma_node_advances(s);
        lemma_node_advances(t);
        let rest = parse_node(s)->Ok_0.1;
        let rest_t = parse_node(t)->Ok_0.1;
        lemma_alike_values_after(rest, rest_t, closer);
    }
}

proof fn lemma_alike_values_after(s: Seq<ItemView>, t: Seq<ItemView>, closer: TokenView)
    requires
        alike(s, t),
        is_closer(closer),
        values_after(s, closer) is Ok,
    ensures
        same_value(values_after(s, closer), values_after(t, closer)),
    decreases s.len(), 0int,
{
    lemma_alike_first(s, t);
    if let Ok(Some(rest)) = after_separator(s) {
        lemma_alike_values(rest, t.skip(1), closer);
    }
}

proof fn lemma_alike_value_of_key(s: Seq<ItemView>, t: Seq<ItemView>)
    requires
        alike(s, t),
        parse_value_of_key(s) is Ok,
    ensures
        same_value(parse_value_of_key(s), parse_value_of_key(t)),
    decreases s.len(), 11int,
{
    let colon = TokenView::Colon;
    lemma_alike_first(s, t);
    lemma_alike_newline(s, t);
    let s1 = after_newline(s)->Ok_0;
    let t1 = after_newline(t)->Ok_0;
    lemma_alike_token(s1, t1, colon, "colon sign"@);
    let s2 = after_token(s1, colon, "colon sign"@)->Ok_0;
    let t2 = after_token(t1, colon, "colon sign"@)->Ok_0;
    lemma_alike_first(s2, t2);
    let s3 = after_newline(s2)->Ok_0;
    assert(no_comma_first(s2)) by {
        if !no_comma_first(s2) {
            assert(s3 == s2);
            assert(parse_node(s3) is Err);
        }
    }
    lemma_alike_newline(s2, t2);
    lemma_alike_node(s3, after_newline(t2)->Ok_0);
}

proof fn lemma_alike_pairs(s: Seq<ItemView>, t: Seq<ItemView>)
    requires
        alike(s, t),
        parse_pairs(s) is Ok,
    ensures
        same_value(parse_pairs(s), parse_pairs(t)),
    decreases s.len(), 11int,
{
    lemma_alike_end(s, t, TokenView::RightBrace);
    lemma_alike_first(s, t);
    if !at_end(s, TokenView::RightBrace) {
        lemma_alike_value_of_key(s.skip(1), t.skip(1));
        lemma_value_of_key_advances(s.skip(1));
        lemma_value_of_key_advances(t.skip(1));
        let rest = parse_value_of_key(s.skip(1))->Ok_0.1;
        let rest_t = parse_value_of_key(t.skip(1))->Ok_0.1;
        lemma_alike_pairs_after(rest, rest_t);
    }
}

proof fn lemma_alike_pairs_after(s: Seq<ItemView>, t: Seq<ItemView>)
    requires
        alike(s, t),
        pairs_after(s) is Ok,
    ensures
        same_value(pairs_after(s), pairs_after(t)),
    decreases s.len(), 0int,
{
    lemma_alike_first(s, t);
    if let Ok(Some(rest)) = after_separator(s) {
        lemma_alike_pairs(rest, t.skip(1));
    }
}

proof fn lemma_alike_entries(s: Seq<ItemView>, t: Seq<ItemView>)
    requires
        alike(s, t),
        parse_entries(s) is Ok,
    ensures
        same_value(parse_entries(s), parse_entries(t)),
    decreases s.len(), 11int,
{
    lemma_alike_end(s, t, TokenView::RightBracket);
    if !at_end(s, TokenView::RightBracket) {
        lemma_alike_node(s, t);
        lemma_node_advances(s);
        lemma_node_advances(t);
        let s1 = parse_node(s)->Ok_0.1;
        let t1 = parse_node(t)->Ok_0.1;
        lemma_alike_value_of_key(s1, t1);
        lemma_value_of_key_advances(s1);
        lemma_value_of_key_advances(t1);
        let rest = parse_value_of_key(s1)->Ok_0.1;
        let rest_t = parse_value_of_key(t1)->Ok_0.1;
        lemma_alike_entries_after(rest, rest_t);
    }
}

proof fn lemma_alike_entries_after(s: Seq<ItemView>, t: Seq<ItemView>)
    requires
        alike(s, t),
        entries_after(s) is Ok,
    ensures
        same_value(entries_after(s), entries_after(t)),
    decreases s.len(), 0int,
{
    lemma_alike_first(s, t);
    if let Ok(Some(rest)) = after_separator(s) {
        lemma_alike_entries(rest, t.skip(1));
    }
}

/// A stream that values or a closing token are read from begins with no
/// comma.
proof fn lemma_values_no_comma(s: Seq<ItemView>, closer: TokenView)
    requires
        is_closer(closer),
        parse_values(s, closer) is Ok,
    ensures
        no_comma_first(s),
{
    if !no_comma_first(s) {
        assert(!at_end(s, closer));
        assert(parse_node(s) is Err);
    }
}

proof fn lemma_alike_key_value_pairs(s: Seq<ItemView>, t: Seq<ItemView>)
    requires
        alike(s, t),
        parse_key_value_pairs(s) is Ok,
    ensures
        same_value(parse_key_value_pairs(s), parse_key_value_pairs(t)),
    decreases s.len(), 8int,
{
    let closer = TokenView::RightBrace;
    lemma_alike_first(s, t);
    let s0 = s.skip(1);
    let t0 = t.skip(1);
    let s1 = after_newline(s0)->Ok_0;
    assert(no_comma_first(s0)) by {
        if !no_comma_first(s0) {
            assert(s1 == s0);
            assert(!at_end(s1, closer));
            assert(parse_pairs(s1) is Err);
        }
    }
    lemma_alike_newline(s0, t0);
    let t1 = after_newline(t0)->Ok_0;
    lemma_alike_pairs(s1, t1);
    let s2 = parse_pairs(s1)->Ok_0.1;
    let t2 = parse_pairs(t1)->Ok_0.1;
    lemma_alike_token(s2, t2, closer, "right brace"@);
}

proof fn lemma_alike_object(s: Seq<ItemView>, t: Seq<ItemView>)
    requires
        alike(s, t),
        parse_object(s) is Ok,
    ensures
        same_value(parse_object(s), parse_object(t)),
    decreases s.len(), 9int,
{
    lemma_alike_key_value_pairs(s, t);
}

proof fn lemma_alike_tuple(s: Seq<ItemView>, t: Seq<ItemView>)
    requires
        alike(s, t),
        parse_tuple(s) is Ok,
    ensures
        same_value(parse_tuple(s), parse_tuple(t)),
    decreases s.len(), 9int,
{
    let closer = TokenView::RightParen;
    lemma_alike_first(s, t);
    let s0 = s.skip(1);
    let t0 = t.skip(1);
    let s1 = after_newline(s0)->Ok_0;
    assert(no_comma_first(s0)) by {
        if !no_comma_first(s0) {
            assert(s1 == s0);
            lemma_values_no_comma(s1, closer);
        }
    }
    lemma_alike_newline(s0, t0);
    let t1 = after_newline(t0)->Ok_0;
    lemma_alike_values(s1, t1, closer);
    let s2 = parse_values(s1, closer)->Ok_0.1;
    let t2 = parse_values(t1, closer)->Ok_0.1;
    lemma_alike_token(s2, t2, closer, "right parenthese"@);
}

proof fn lemma_alike_tuple_variant(s: Seq<ItemView>, t: Seq<ItemView>)
    requires
        alike(s, t),
        parse_tuple_variant(s) is Ok,
    ensures
        same_value(parse_tuple_variant(s), parse_tuple_variant(t)),
    decreases s.len(), 9int,
{
    let closer = TokenView::RightParen;
    lemma_alike_first(s, t);
    let s0 = s.skip(2);
    let t0 = t.skip(2);
    let s1 = after_newline(s0)->Ok_0;
    assert(no_comma_first(s0)) by {
        if !no_comma_first(s0) {
            assert(s1 == s0);
            lemma_values_no_comma(s1, closer);
        }
    }
    lemma_alike_newline(s0, t0);
    let t1 = after_newline(t0)->Ok_0;
    lemma_alike_values(s1, t1, closer);
    let s2 = parse_values(s1, closer)->Ok_0.1;
    let t2 = parse_values(t1, closer)->Ok_0.1;
    lemma_alike_token(s2, t2, closer, "right parenthese"@);
}

proof fn lemma_alike_struct_variant(s: Seq<ItemView>, t: Seq<ItemView>)
    requires
        alike(s, t),
        parse_struct_variant(s) is Ok,
    ensures
        same_value(parse_struct_variant(s), parse_struct_variant(t)),
    decreases s.len(), 9int,
{
    lemma_alike_first(s, t);
    lemma_alike_key_value_pairs(s.skip(1), t.skip(1));
}

/// Whether a colon follows the first value is the same in streams that are
/// alike, where the elements behind that value are read.
proof fn lemma_alike_colon(s: Seq<ItemView>, t: Seq<ItemView>)
    requires
        alike(s, t),
        colon_follows(s) is Ok,
        colon_follows(s)->Ok_0 || values_after(s, TokenView::RightBracket) is Ok,
    ensures
        colon_follows(t) == colon_follows(s),
{
    lemma_alike_first(s, t);
    if s.len() > 1 && s[0] is Ok && s[0]->Ok_0.token is Comma {
        // behind a comma an element or the closing bracket is read, and a
        // colon is neither
        let behind = s.skip(1);
        assert(behind[0] == s[1]);
        assert(parse_values(behind, TokenView::RightBracket) is Ok);
        if s[1] is Ok && s[1]->Ok_0.token is Colon {
            assert(!at_end(behind, TokenView::RightBracket));
            assert(parse_node(behind) is Err);
        }
    }
}

proof fn lemma_alike_list(s: Seq<ItemView>, t: Seq<ItemView>)
    requires
        alike(s, t),
        parse_list(s) is Ok,
    ensures
        same_value(parse_list(s), parse_list(t)),
    decreases s.len(), 9int,
{
    let closer = TokenView::RightBracket;
    lemma_alike_first(s, t);
    let s0 = s.skip(1);
    let t0 = t.skip(1);
    let s1 = after_newline(s0)->Ok_0;
    assert(no_comma_first(s0)) by {
        if !no_comma_first(s0) {
            assert(s1 == s0);
            assert(!at_end(s1, closer));
            assert(parse_node(s1) is Err);
        }
    }
    lemma_alike_newline(s0, t0);
    let t1 = after_newline(t0)->Ok_0;
    lemma_alike_end(s1, t1, closer);
    if at_end(s1, closer) {
        lemma_alike_token(s1, t1, closer, "right bracket"@);
    } else {
        lemma_alike_node(s1, t1);
        lemma_node_advances(s1);
        let s2 = parse_node(s1)->Ok_0.1;
        let t2 = parse_node(t1)->Ok_0.1;
        if colon_follows(s2) == Ok::<bool, Failure>(true) {
            lemma_alike_colon(s2, t2);
            lemma_alike_entries(s1, t1);
            let s3 = parse_entries(s1)->Ok_0.1;
            let t3 = parse_entries(t1)->Ok_0.1;
            lemma_alike_token(s3, t3, closer, "right bracket"@);
        } else {
            assert(values_after(s2, closer) is Ok);
            lemma_alike_colon(s2, t2);
            lemma_alike_values(s1, t1, closer);
            let s3 = parse_values(s1, closer)->Ok_0.1;
            let t3 = parse_values(t1, closer)->Ok_0.1;
            lemma_alike_token(s3, t3, closer, "right bracket"@);
        }
    }
}

/// A document is read as the same tree with line breaks in place of any
/// of its commas, whatever the ranges of its tokens: where a stream is a
/// document, every stream that is alike is the same document.
pub proof fn lemma_commas_as_line_breaks(s: Seq<ItemView>, t: Seq<ItemView>)
    requires
        alike(s, t),
        parse_document(s) is Ok,
    ensures
        parse_document(t) == parse_document(s),
{
    lemma_alike_node(s, t);
}

/// Whether an item ends a value: it is a token, and neither a separator, an
/// opening token nor a colon.
pub open spec fn ends_value(item: ItemView) -> bool {
    item is Ok && !(item->Ok_0.token is Comma || item->Ok_0.token is NewLine
        || item->Ok_0.token is LeftParen || item->Ok_0.token is LeftBracket
        || item->Ok_0.token is LeftBrace || item->Ok_0.token is Colon)
}

/// Whether the item at `i` is a line break that separates: it stands
/// behind the end of a value, and no colon stands behind it.
pub open spec fn separating(t: Seq<ItemView>, i: int) -> bool {
    &&& 0 < i < t.len()
    &&& t[i] is Ok
    &&& t[i]->Ok_0.token is NewLine
    &&& ends_value(t[i - 1])
    &&& !(i + 1 < t.len() && t[i + 1] is Ok && t[i + 1]->Ok_0.token is Colon)
}

/// Whether the item at `i` of `s` stands for the item at `i` of `t` with,
/// at most, a comma in place of a line break that separates, and another
/// range.
pub open spec fn item_turned(t: Seq<ItemView>, s: Seq<ItemView>, i: int) -> bool {
    match t[i] {
        Err(_) => s[i] is Err,
        Ok(x) => s[i] is Ok && (s[i]->Ok_0.token == x.token || (s[i]->Ok_0.token is Comma
            && separating(t, i))),
    }
}

/// Whether the stream `s` is the stream `t` with commas in place of some
/// of its line breaks that separate, and with any ranges.
pub open spec fn turned(t: Seq<ItemView>, s: Seq<ItemView>) -> bool {
    &&& s.len() == t.len()
    &&& forall|i: int| 0 <= i < t.len() ==> #[trigger] item_turned(t, s, i)
}

/// Whether reading from `at` on gives the same value from both streams,
/// and ends at the same place.
pub open spec fn same_from<T>(
    a: Parsed<T>,
    b: Parsed<T>,
    t: Seq<ItemView>,
    s: Seq<ItemView>,
    at: int,
) -> bool {
    &&& a is Ok
    &&& b is Ok
    &&& a->Ok_0.0 == b->Ok_0.0
    &&& at <= t.len() - a->Ok_0.1.len() <= t.len()
    &&& a->Ok_0.1 == t.skip(t.len() - a->Ok_0.1.len())
    &&& b->Ok_0.1 == s.skip(t.len() - a->Ok_0.1.len())
}

proof fn lemma_turned_at(t: Seq<ItemView>, s: Seq<ItemView>, at: int)
    requires
        turned(t, s),
        0 <= at <= t.len(),
    ensures
        t.skip(at).len() == t.len() - at,
        s.skip(at).len() == t.len() - at,
        at < t.len() ==> item_turned(t, s, at) && t.skip(at)[0] == t[at] && s.skip(at)[0] == s[at]
            && t.skip(at).skip(1) == t.skip(at + 1) && s.skip(at).skip(1) == s.skip(at + 1),
        at + 1 < t.len() ==> item_turned(t, s, at + 1) && t.skip(at)[1] == t[at + 1] && s.skip(
            at,
        )[1] == s[at + 1] && t.skip(at).skip(2) == t.skip(at + 2) && s.skip(at).skip(2) == s.skip(
            at + 2,
        ),
        at > 0 ==> item_turned(t, s, at - 1),
{
    if at < t.len() {
        assert(t.skip(at).skip(1) =~= t.skip(at + 1));
        assert(s.skip(at).skip(1) =~= s.skip(at + 1));
    }
    if at + 1 < t.len() {
        assert(t.skip(at).skip(2) =~= t.skip(at + 2));
        assert(s.skip(at).skip(2) =~= s.skip(at + 2));
    }
}

/// A line break behind an opening token or a colon, or before a colon,
/// stays one; `to` is where the stream stands behind it.
proof fn lemma_turned_newline(t: Seq<ItemView>, s: Seq<ItemView>, at: int) -> (to: int)
    requires
        turned(t, s),
        0 <= at <= t.len(),
        after_newline(t.skip(at)) is Ok,
        at < t.len() && t[at]->Ok_0.token is NewLine ==> !separating(t, at),
    ensures
        at <= to <= at + 1,
        to <= t.len(),
        after_newline(t.skip(at)) == Ok::<Seq<ItemView>, Failure>(t.skip(to)),
        after_newline(s.skip(at)) == Ok::<Seq<ItemView>, Failure>(s.skip(to)),
        to < t.len() ==> !(t[to]->Ok_0.token is NewLine) || to == at + 1,
{
    lemma_turned_at(t, s, at);
    if at < t.len() && t[at]->Ok_0.token is NewLine {
        at + 1
    } else {
        at
    }
}

proof fn lemma_turned_token(
    t: Seq<ItemView>,
    s: Seq<ItemView>,
    at: int,
    expected: TokenView,
    d: Seq<char>,
)
    requires
        turned(t, s),
        0 <= at <= t.len(),
        after_token(t.skip(at), expected, d) is Ok,
        is_closer(expected) || expected is Colon,
    ensures
        at < t.len(),
        t[at] is Ok,
        t[at]->Ok_0.token == expected,
        after_token(t.skip(at), expected, d) == Ok::<Seq<ItemView>, Failure>(t.skip(at + 1)),
        after_token(s.skip(at), expected, d) == Ok::<Seq<ItemView>, Failure>(s.skip(at + 1)),
{
    lemma_turned_at(t, s, at);
}

proof fn lemma_turned_end(t: Seq<ItemView>, s: Seq<ItemView>, at: int, closer: TokenView)
    requires
        turned(t, s),
        0 <= at <= t.len(),
        is_closer(closer),
    ensures
        at_end(t.skip(at), closer) == at_end(s.skip(at), closer),
{
    lemma_turned_at(t, s, at);
}

/// Reading a node gives the same with commas for line breaks that
/// separate.
pub proof fn lemma_turned_node(t: Seq<ItemView>, s: Seq<ItemView>, at: int)
    requires
        turned(t, s),
        0 <= at <= t.len(),
        parse_node(t.skip(at)) is Ok,
    ensures
        same_from(parse_node(t.skip(at)), parse_node(s.skip(at)), t, s, at),
    decreases t.len() - at, 10int,
{
    lemma_turned_at(t, s, at);
    match t[at]->Ok_0.token {
        TokenView::Variant(_, _) => {
            if at + 1 < t.len() && t[at + 1] is Ok && t[at + 1]->Ok_0.token is LeftParen {
                lemma_turned_tuple_variant(t, s, at);
            } else if at + 1 < t.len() && t[at + 1] is Ok && t[at + 1]->Ok_0.token is LeftBrace {
                lemma_turned_struct_variant(t, s, at);
            }
        },
        TokenView::LeftBrace => {
            lemma_turned_object(t, s, at);
        },
        TokenView::LeftBracket => {
            lemma_turned_list(t, s, at);
        },
        TokenView::LeftParen => {
            lemma_turned_tuple(t, s, at);
        },
        _ => {},
    }
}

proof fn lemma_turned_values(t: Seq<ItemView>, s: Seq<ItemView>, at: int, closer: TokenView)
    requires
        turned(t, s),
        0 <= at <= t.len(),
        is_closer(closer),
        parse_values(t.skip(at), closer) is Ok,
    ensures
        same_from(parse_values(t.skip(at), closer), parse_values(s.skip(at), closer), t, s, at),
    decreases t.len() - at, 11int,
{
    lemma_turned_at(t, s, at);
    lemma_turned_end(t, s, at, closer);
    if !at_end(t.skip(at), closer) {
        lemma_turned_node(t, s, at);
        lemma_node_advances(t.skip(at));
        lemma_node_advances(s.skip(at));
        let to = t.len() - parse_node(t.skip(at))->Ok_0.1.len();
        lemma_turned_values_after(t, s, to, closer);
    }
}

proof fn lemma_turned_values_after(t: Seq<ItemView>, s: Seq<ItemView>, at: int, closer: TokenView)
    requires
        turned(t, s),
        0 <= at <= t.len(),
        is_closer(closer),
        values_after(t.skip(at), closer) is Ok,
    ensures
        same_from(values_after(t.skip(at), closer), values_after(s.skip(at), closer), t, s, at),
    decreases t.len() - at, 12int,
{
    lemma_turned_at(t, s, at);
    if after_separator(t.skip(at)) matches Ok(Some(_)) {
        lemma_turned_values(t, s, at + 1, closer);
    }
}

proof fn lemma_turned_value_of_key(t: Seq<ItemView>, s: Seq<ItemView>, at: int)
    requires
        turned(t, s),
        0 <= at <= t.len(),
        parse_value_of_key(t.skip(at)) is Ok,
    ensures
        same_from(parse_value_of_key(t.skip(at)), parse_value_of_key(s.skip(at)), t, s, at),
        t.len() - parse_value_of_key(t.skip(at))->Ok_0.1.len() > at,
    decreases t.len() - at, 11int,
{
    let colon = TokenView::Colon;
    lemma_turned_at(t, s, at);
    if at < t.len() && t[at]->Ok_0.token is NewLine {
        // a colon stands behind this line break
        lemma_turned_at(t, s, at + 1);
        assert(after_newline(t.skip(at)) == Ok::<Seq<ItemView>, Failure>(t.skip(at + 1)));
        assert(after_token(t.skip(at + 1), colon, "colon sign"@) is Ok);
    }
    let a1 = lemma_turned_newline(t, s, at);
    lemma_turned_token(t, s, a1, colon, "colon sign"@);
    let a2 = a1 + 1;
    lemma_turned_at(t, s, a2);
    let a3 = lemma_turned_newline(t, s, a2);
    lemma_turned_node(t, s, a3);
    lemma_node_advances(t.skip(a3));
}

proof fn lemma_turned_pairs(t: Seq<ItemView>, s: Seq<ItemView>, at: int)
    requires
        turned(t, s),
        0 <= at <= t.len(),
        parse_pairs(t.skip(at)) is Ok,
    ensures
        same_from(parse_pairs(t.skip(at)), parse_pairs(s.skip(at)), t, s, at),
    decreases t.len() - at, 11int,
{
    lemma_turned_at(t, s, at);
    lemma_turned_end(t, s, at, TokenView::RightBrace);
    if !at_end(t.skip(at), TokenView::RightBrace) {
        lemma_turned_value_of_key(t, s, at + 1);
        lemma_value_of_key_advances(t.skip(at + 1));
        lemma_value_of_key_advances(s.skip(at + 1));
        let to = t.len() - parse_value_of_key(t.skip(at + 1))->Ok_0.1.len();
        lemma_turned_pairs_after(t, s, to);
    }
}

proof fn lemma_turned_pairs_after(t: Seq<ItemView>, s: Seq<ItemView>, at: int)
    requires
        turned(t, s),
        0 <= at <= t.len(),
        pairs_after(t.skip(at)) is Ok,
    ensures
        same_from(pairs_after(t.skip(at)), pairs_after(s.skip(at)), t, s, at),
    decreases t.len() - at, 12int,
{
    lemma_turned_at(t, s, at);
    if after_separator(t.skip(at)) matches Ok(Some(_)) {
        lemma_turned_pairs(t, s, at + 1);
    }
}

proof fn lemma_turned_entries(t: Seq<ItemView>, s: Seq<ItemView>, at: int)
    requires
        turned(t, s),
        0 <= at <= t.len(),
        parse_entries(t.skip(at)) is Ok,
    ensures
        same_from(parse_entries(t.skip(at)), parse_entries(s.skip(at)), t, s, at),
    decreases t.len() - at, 11int,
{
    lemma_turned_at(t, s, at);
    lemma_turned_end(t, s, at, TokenView::RightBracket);
    if !at_end(t.skip(at), TokenView::RightBracket) {
        lemma_turned_node(t, s, at);
        lemma_node_advances(t.skip(at));
        lemma_node_advances(s.skip(at));
        let a1 = t.len() - parse_node(t.skip(at))->Ok_0.1.len();
        lemma_turned_value_of_key(t, s, a1);
        lemma_value_of_key_advances(t.skip(a1));
        lemma_value_of_key_advances(s.skip(a1));
        let to = t.len() - parse_value_of_key(t.skip(a1))->Ok_0.1.len();
        lemma_turned_entries_after(t, s, to);
    }
}

proof fn lemma_turned_entries_after(t: Seq<ItemView>, s: Seq<ItemView>, at: int)
    requires
        turned(t, s),
        0 <= at <= t.len(),
        entries_after(t.skip(at)) is Ok,
    ensures
        same_from(entries_after(t.skip(at)), entries_after(s.skip(at)), t, s, at),
    decreases t.len() - at, 12int,
{
    lemma_turned_at(t, s, at);
    if after_separator(t.skip(at)) matches Ok(Some(_)) {
        lemma_turned_entries(t, s, at + 1);
    }
}

proof fn lemma_turned_key_value_pairs(t: Seq<ItemView>, s: Seq<ItemView>, at: int)
    requires
        turned(t, s),
        0 <= at < t.len(),
        t[at] is Ok,
        t[at]->Ok_0.token is LeftBrace,
        parse_key_value_pairs(t.skip(at)) is Ok,
    ensures
        same_from(parse_key_value_pairs(t.skip(at)), parse_key_value_pairs(s.skip(at)), t, s, at),
    decreases t.len() - at, 8int,
{
    let closer = TokenView::RightBrace;
    lemma_turned_at(t, s, at);
    lemma_turned_at(t, s, at + 1);
    let a1 = lemma_turned_newline(t, s, at + 1);
    lemma_turned_pairs(t, s, a1);
    let a2 = t.len() - parse_pairs(t.skip(a1))->Ok_0.1.len();
    lemma_turned_token(t, s, a2, closer, "right brace"@);
}

proof fn lemma_turned_object(t: Seq<ItemView>, s: Seq<ItemView>, at: int)
    requires
        turned(t, s),
        0 <= at < t.len(),
        t[at] is Ok,
        t[at]->Ok_0.token is LeftBrace,
        parse_object(t.skip(at)) is Ok,
    ensures
        same_from(parse_object(t.skip(at)), parse_object(s.skip(at)), t, s, at),
    decreases t.len() - at, 9int,
{
    lemma_turned_key_value_pairs(t, s, at);
}

proof fn lemma_turned_struct_variant(t: Seq<ItemView>, s: Seq<ItemView>, at: int)
    requires
        turned(t, s),
        0 <= at,
        at + 1 < t.len(),
        t[at + 1] is Ok,
        t[at + 1]->Ok_0.token is LeftBrace,
        parse_struct_variant(t.skip(at)) is Ok,
    ensures
        same_from(parse_struct_variant(t.skip(at)), parse_struct_variant(s.skip(at)), t, s, at),
    decreases t.len() - at, 9int,
{
    lemma_turned_at(t, s, at);
    lemma_turned_key_value_pairs(t, s, at + 1);
}

proof fn lemma_turned_tuple(t: Seq<ItemView>, s: Seq<ItemView>, at: int)
    requires
        turned(t, s),
        0 <= at < t.len(),
        t[at] is Ok,
        t[at]->Ok_0.token is LeftParen,
        parse_tuple(t.skip(at)) is Ok,
    ensures
        same_from(parse_tuple(t.skip(at)), parse_tuple(s.skip(at)), t, s, at),
    decreases t.len() - at, 9int,
{
    let closer = TokenView::RightParen;
    lemma_turned_at(t, s, at);
    lemma_turned_at(t, s, at + 1);
    let a1 = lemma_turned_newline(t, s, at + 1);
    lemma_turned_values(t, s, a1, closer);
    let a2 = t.len() - parse_values(t.skip(a1), closer)->Ok_0.1.len();
    lemma_turned_token(t, s, a2, closer, "right parenthese"@);
}

proof fn lemma_turned_tuple_variant(t: Seq<ItemView>, s: Seq<ItemView>, at: int)
    requires
        turned(t, s),
        0 <= at,
        at + 1 < t.len(),
        t[at + 1] is Ok,
        t[at + 1]->Ok_0.token is LeftParen,
        parse_tuple_variant(t.skip(at)) is Ok,
    ensures
        same_from(parse_tuple_variant(t.skip(at)), parse_tuple_variant(s.skip(at)), t, s, at),
    decreases t.len() - at, 9int,
{
    let closer = TokenView::RightParen;
    lemma_turned_at(t, s, at);
    lemma_turned_at(t, s, at + 2);
    let a1 = lemma_turned_newline(t, s, at + 2);
    lemma_turned_values(t, s, a1, closer);
    let a2 = t.len() - parse_values(t.skip(a1), closer)->Ok_0.1.len();
    lemma_turned_token(t, s, a2, closer, "right parenthese"@);
}

/// Whether a colon follows the first value is the same with commas for
/// line breaks that separate.
proof fn lemma_turned_colon(t: Seq<ItemView>, s: Seq<ItemView>, at: int)
    requires
        turned(t, s),
        0 <= at <= t.len(),
        colon_follows(t.skip(at)) is Ok,
    ensures
        colon_follows(s.skip(at)) == colon_follows(t.skip(at)),
{
    lemma_turned_at(t, s, at);
}

proof fn lemma_turned_list(t: Seq<ItemView>, s: Seq<ItemView>, at: int)
    requires
        turned(t, s),
        0 <= at < t.len(),
        t[at] is Ok,
        t[at]->Ok_0.token is LeftBracket,
        parse_list(t.skip(at)) is Ok,
    ensures
        same_from(parse_list(t.skip(at)), parse_list(s.skip(at)), t, s, at),
    decreases t.len() - at, 9int,
{
    let closer = TokenView::RightBracket;
    lemma_turned_at(t, s, at);
    lemma_turned_at(t, s, at + 1);
    let a1 = lemma_turned_newline(t, s, at + 1);
    lemma_turned_end(t, s, a1, closer);
    if at_end(t.skip(a1), closer) {
        lemma_turned_token(t, s, a1, closer, "right bracket"@);
    } else {
        lemma_turned_node(t, s, a1);
        let a2 = t.len() - parse_node(t.skip(a1))->Ok_0.1.len();
        lemma_turned_colon(t, s, a2);
        if colon_follows(t.skip(a2)) == Ok::<bool, Failure>(true) {
            lemma_turned_entries(t, s, a1);
            let a3 = t.len() - parse_entries(t.skip(a1))->Ok_0.1.len();
            lemma_turned_token(t, s, a3, closer, "right bracket"@);
        } else {
            lemma_turned_values(t, s, a1, closer);
            let a3 = t.len() - parse_values(t.skip(a1), closer)->Ok_0.1.len();
            lemma_turned_token(t, s, a3, closer, "right bracket"@);
        }
    }
}

/// A document is read as the same tree with commas in place of any of its
/// line breaks that separate, whatever the ranges of its tokens: a line
/// break separates where it stands behind the end of a value and no colon
/// stands behind it.
pub proof fn lemma_line_breaks_as_commas(t: Seq<ItemView>, s: Seq<ItemView>)
    requires
        turned(t, s),
        parse_document(t) is Ok,
    ensures
        parse_document(s) == parse_document(t),
{
    assert(t.skip(0) =~= t);
    assert(s.skip(0) =~= s);
    lemma_turned_node(t, s, 0);
}


} // verus!
