use vstd::prelude::*;
use crate::location::Location;
use crate::normalizer::token_item;
use crate::parser::{
    after_newline, after_separator, after_token, at_end, colon_follows, entries_after,
    lemma_node_advances, lemma_value_of_key_advances, pairs_after, parse_document,
    parse_entries, parse_key_value_pairs, parse_list, parse_node, parse_object, parse_pairs,
    parse_struct_variant, parse_tuple, parse_tuple_variant, parse_value_of_key, parse_values,
    values_after, Failure, Parsed,
};
use crate::separators::{is_closer, item_alike, lemma_commas_as_line_breaks};
use crate::token::{ItemView, TokenView};

verus! {

/// The stream `s` with a comma put in before the item at `i`.
pub open spec fn with_comma(s: Seq<ItemView>, i: int, range: Location) -> Seq<ItemView> {
    s.take(i) + seq![token_item(TokenView::Comma, range)] + s.skip(i)
}

/// Whether an item ends an element: it is a token, and neither a
/// separator nor an opening token.
pub open spec fn ends_element(item: ItemView) -> bool {
    item is Ok && !(item->Ok_0.token is Comma || item->Ok_0.token is NewLine
        || item->Ok_0.token is LeftParen || item->Ok_0.token is LeftBracket
        || item->Ok_0.token is LeftBrace)
}

/// Whether a trailing comma can be put in at `i`: a closing token stands
/// there, and what stands before it ends an element.
pub open spec fn comma_place(s: Seq<ItemView>, i: int) -> bool {
    &&& 0 <= i < s.len()
    &&& s[i] is Ok
    &&& is_closer(s[i]->Ok_0.token)
    &&& i > 0 ==> ends_element(s[i - 1])
}

/// The stream `s` with a comma put in before the item at `j`, and `s`
/// itself where `j` is negative: the comma then stands in what was read
/// before `s`.
pub open spec fn behind(s: Seq<ItemView>, j: int, range: Location) -> Seq<ItemView> {
    if j < 0 {
        s
    } else {
        with_comma(s, j, range)
    }
}

/// Whether `j` is negative or a place for a trailing comma.
pub open spec fn place(s: Seq<ItemView>, j: int) -> bool {
    j < 0 || comma_place(s, j)
}

/// The place of the comma in what is left when `k` items were read: a
/// comma directly behind elements is read along with them (`absorbs`).
pub open spec fn moved(j: int, k: int, absorbs: bool) -> int {
    if absorbs && j == k {
        -1
    } else {
        j - k
    }
}

/// Whether the stream begins with the token `closer`.
pub open spec fn closes(s: Seq<ItemView>, closer: TokenView) -> bool {
    s.len() > 0 && s[0] is Ok && s[0]->Ok_0.token == closer
}

/// Whether reading from the stream with the comma (`b`) gives the same
/// value as reading from the stream `s` without it (`a`), and leaves the
/// same, with the comma where it was not read.
pub open spec fn same_with_comma<T>(
    a: Parsed<T>,
    b: Parsed<T>,
    s: Seq<ItemView>,
    j: int,
    range: Location,
    absorbs: bool,
) -> bool {
    &&& a is Ok
    &&& b is Ok
    &&& a->Ok_0.0 == b->Ok_0.0
    &&& a->Ok_0.1.len() <= s.len()
    &&& a->Ok_0.1 == s.skip(s.len() - a->Ok_0.1.len())
    &&& place(a->Ok_0.1, moved(j, s.len() - a->Ok_0.1.len(), absorbs))
    &&& b->Ok_0.1 == behind(
        a->Ok_0.1,
        moved(j, s.len() - a->Ok_0.1.len(), absorbs),
        range,
    )
}

proof fn lemma_step(s: Seq<ItemView>, j: int, range: Location)
    requires
        place(s, j),
        j != 0,
        s.len() > 0,
    ensures
        behind(s, j, range).len() >= s.len(),
        behind(s, j, range)[0] == s[0],
        behind(s, j, range).skip(1) == behind(s.skip(1), j - 1, range),
        place(s.skip(1), j - 1),
        j == 1 ==> ends_element(s[0]) && closes(s.skip(1), s[1]->Ok_0.token) && is_closer(
            s[1]->Ok_0.token,
        ) && behind(s, j, range)[1] == token_item(TokenView::Comma, range),
        j != 1 && s.len() > 1 ==> behind(s, j, range)[1] == s[1],
{
    if j > 0 {
        assert(behind(s, j, range).skip(1) =~= with_comma(s.skip(1), j - 1, range));
        assert(s.skip(1)[j - 1] == s[j]);
        if j - 1 > 0 {
            assert(s.skip(1)[j - 2] == s[j - 1]);
        }
    }
}

/// What is left of what is left of a stream is left of the stream.
proof fn lemma_suffix(s: Seq<ItemView>, r: Seq<ItemView>, q: Seq<ItemView>)
    requires
        r.len() <= s.len(),
        r == s.skip(s.len() - r.len()),
        q.len() <= r.len(),
        q == r.skip(r.len() - q.len()),
    ensures
        q == s.skip(s.len() - q.len()),
{
    assert(q =~= s.skip(s.len() - q.len()));
}

/// A result that holds of what is left of a stream holds of the stream.
proof fn lemma_carry<T>(
    a: Parsed<T>,
    b: Parsed<T>,
    s: Seq<ItemView>,
    r: Seq<ItemView>,
    j: int,
    range: Location,
    absorbs: bool,
)
    requires
        r.len() <= s.len(),
        r == s.skip(s.len() - r.len()),
        same_with_comma(a, b, r, j - (s.len() - r.len()), range, absorbs),
    ensures
        same_with_comma(a, b, s, j, range, absorbs),
{
    lemma_suffix(s, r, a->Ok_0.1);
}

proof fn lemma_comma_newline(s: Seq<ItemView>, j: int, range: Location)
    requires
        place(s, j),
        j != 0,
        after_newline(s) is Ok,
    ensures
        ({
            let left = after_newline(s)->Ok_0;
            let k = s.len() - left.len();
            &&& 0 <= k <= 1
            &&& left == s.skip(k)
            &&& place(left, j - k)
            &&& j - k != 0
            &&& after_newline(behind(s, j, range)) == Ok::<Seq<ItemView>, Failure>(
                behind(left, j - k, range),
            )
        }),
{
    if s.len() > 0 {
        lemma_step(s, j, range);
    }
    assert(s.skip(0) =~= s);
}

proof fn lemma_comma_token(
    s: Seq<ItemView>,
    j: int,
    range: Location,
    expected: TokenView,
    d: Seq<char>,
)
    requires
        place(s, j),
        j != 0,
        after_token(s, expected, d) is Ok,
    ensures
        after_token(s, expected, d)->Ok_0 == s.skip(1),
        s.len() > 0,
        place(s.skip(1), j - 1),
        after_token(behind(s, j, range), expected, d) == Ok::<Seq<ItemView>, Failure>(
            behind(s.skip(1), j - 1, range),
        ),
{
    lemma_step(s, j, range);
}

/// Reading a node gives the same with the comma and without it.
pub proof fn lemma_comma_node(s: Seq<ItemView>, j: int, range: Location)
    requires
        place(s, j),
        j != 0,
        parse_node(s) is Ok,
    ensures
        same_with_comma(parse_node(s), parse_node(behind(s, j, range)), s, j, range, false),
    decreases s.len(), 10int,
{
    let t = behind(s, j, range);
    lemma_step(s, j, range);
    match s[0]->Ok_0.token {
        TokenView::Variant(_, _) => {
            if s.len() > 1 && s[1] is Ok && s[1]->Ok_0.token is LeftParen {
                lemma_comma_tuple_variant(s, j, range);
            } else if s.len() > 1 && s[1] is Ok && s[1]->Ok_0.token is LeftBrace {
                lemma_comma_struct_variant(s, j, range);
            } else {
                assert(parse_node(t) is Ok);
            }
        },
        TokenView::LeftBrace => {
            lemma_comma_object(s, j, range);
        },
        TokenView::LeftBracket => {
            lemma_comma_list(s, j, range);
        },
        TokenView::LeftParen => {
            lemma_comma_tuple(s, j, range);
        },
        _ => {},
    }
}

proof fn lemma_comma_values(s: Seq<ItemView>, j: int, range: Location, closer: TokenView)
    requires
        place(s, j),
        j != 0,
        is_closer(closer),
        parse_values(s, closer) is Ok,
        closes(parse_values(s, closer)->Ok_0.1, closer),
    ensures
        same_with_comma(
            parse_values(s, closer),
            parse_values(behind(s, j, range), closer),
            s,
            j,
            range,
            true,
        ),
    decreases s.len(), 11int,
{
    let t = behind(s, j, range);
    lemma_step(s, j, range);
    if at_end(s, closer) {
        assert(s.skip(0) =~= s);
    } else {
        lemma_comma_node(s, j, range);
        lemma_node_advances(s);
        lemma_node_advances(t);
        let r = parse_node(s)->Ok_0.1;
        let k = s.len() - r.len();
        lemma_comma_values_after(r, j - k, range, closer);
        lemma_carry(
            values_after(r, closer),
            values_after(behind(r, j - k, range), closer),
            s,
            r,
            j,
            range,
            true,
        );
    }
}

proof fn lemma_comma_values_after(s: Seq<ItemView>, j: int, range: Location, closer: TokenView)
    requires
        place(s, j),
        is_closer(closer),
        values_after(s, closer) is Ok,
        closes(values_after(s, closer)->Ok_0.1, closer),
    ensures
        same_with_comma(
            values_after(s, closer),
            values_after(behind(s, j, range), closer),
            s,
            j,
            range,
            true,
        ),
    decreases s.len(), 0int,
{
    let t = behind(s, j, range);
    if let Ok(Some(rest)) = after_separator(s) {
        lemma_step(s, j, range);
        lemma_comma_values(rest, j - 1, range, closer);
        lemma_carry(
            parse_values(rest, closer),
            parse_values(behind(rest, j - 1, range), closer),
            s,
            rest,
            j,
            range,
            true,
        );
    } else {
        assert(s.skip(0) =~= s);
        if j == 0 {
            assert(t.skip(1) =~= s);
        } else {
            lemma_step(s, j, range);
        }
    }
}

proof fn lemma_comma_value_of_key(s: Seq<ItemView>, j: int, range: Location)
    requires
        place(s, j),
        j != 0,
        parse_value_of_key(s) is Ok,
    ensures
        same_with_comma(
            parse_value_of_key(s),
            parse_value_of_key(behind(s, j, range)),
            s,
            j,
            range,
            false,
        ),
    decreases s.len(), 11int,
{
    let colon = TokenView::Colon;
    lemma_comma_newline(s, j, range);
    let s1 = after_newline(s)->Ok_0;
    let j1 = j - (s.len() - s1.len());
    lemma_comma_token(s1, j1, range, colon, "colon sign"@);
    let s2 = s1.skip(1);
    let j2 = j1 - 1;
    lemma_suffix(s, s1, s2);
    if j2 == 0 {
        assert(after_newline(s2)->Ok_0 == s2);
        assert(parse_node(s2) is Err);
    }
    lemma_comma_newline(s2, j2, range);
    let s3 = after_newline(s2)->Ok_0;
    let j3 = j2 - (s2.len() - s3.len());
    lemma_suffix(s, s2, s3);
    lemma_comma_node(s3, j3, range);
    lemma_carry(parse_node(s3), parse_node(behind(s3, j3, range)), s, s3, j, range, false);
}

proof fn lemma_comma_pairs(s: Seq<ItemView>, j: int, range: Location)
    requires
        place(s, j),
        j != 0,
        parse_pairs(s) is Ok,
        closes(parse_pairs(s)->Ok_0.1, TokenView::RightBrace),
    ensures
        same_with_comma(parse_pairs(s), parse_pairs(behind(s, j, range)), s, j, range, true),
    decreases s.len(), 11int,
{
    let t = behind(s, j, range);
    lemma_step(s, j, range);
    if at_end(s, TokenView::RightBrace) {
        assert(s.skip(0) =~= s);
    } else {
        let s1 = s.skip(1);
        if j == 1 {
            assert(after_newline(s1)->Ok_0 == s1);
            assert(parse_value_of_key(s1) is Err);
        }
        lemma_comma_value_of_key(s1, j - 1, range);
        lemma_value_of_key_advances(s1);
        lemma_value_of_key_advances(t.skip(1));
        let r = parse_value_of_key(s1)->Ok_0.1;
        lemma_suffix(s, s1, r);
        let k = s.len() - r.len();
        lemma_comma_pairs_after(r, j - k, range);
        lemma_carry(pairs_after(r), pairs_after(behind(r, j - k, range)), s, r, j, range, true);
    }
}

proof fn lemma_comma_pairs_after(s: Seq<ItemView>, j: int, range: Location)
    requires
        place(s, j),
        pairs_after(s) is Ok,
        closes(pairs_after(s)->Ok_0.1, TokenView::RightBrace),
    ensures
        same_with_comma(pairs_after(s), pairs_after(behind(s, j, range)), s, j, range, true),
    decreases s.len(), 0int,
{
    let t = behind(s, j, range);
    if let Ok(Some(rest)) = after_separator(s) {
        lemma_step(s, j, range);
        lemma_comma_pairs(rest, j - 1, range);
        lemma_carry(
            parse_pairs(rest),
            parse_pairs(behind(rest, j - 1, range)),
            s,
            rest,
            j,
            range,
            true,
        );
    } else {
        assert(s.skip(0) =~= s);
        if j == 0 {
            assert(t.skip(1) =~= s);
        } else {
            lemma_step(s, j, range);
        }
    }
}

proof fn lemma_comma_entries(s: Seq<ItemView>, j: int, range: Location)
    requires
        place(s, j),
        j != 0,
        parse_entries(s) is Ok,
        closes(parse_entries(s)->Ok_0.1, TokenView::RightBracket),
    ensures
        same_with_comma(parse_entries(s), parse_entries(behind(s, j, range)), s, j, range, true),
    decreases s.len(), 11int,
{
    let t = behind(s, j, range);
    lemma_step(s, j, range);
    if at_end(s, TokenView::RightBracket) {
        assert(s.skip(0) =~= s);
    } else {
        lemma_comma_node(s, j, range);
        lemma_node_advances(s);
        lemma_node_advances(t);
        let s1 = parse_node(s)->Ok_0.1;
        let j1 = j - (s.len() - s1.len());
        if j1 == 0 {
            assert(after_newline(s1)->Ok_0 == s1);
            assert(parse_value_of_key(s1) is Err);
        }
        lemma_comma_value_of_key(s1, j1, range);
        lemma_value_of_key_advances(s1);
        lemma_value_of_key_advances(behind(s1, j1, range));
        let r = parse_value_of_key(s1)->Ok_0.1;
        lemma_suffix(s, s1, r);
        let k = s.len() - r.len();
        lemma_comma_entries_after(r, j - k, range);
        lemma_carry(
            entries_after(r),
            entries_after(behind(r, j - k, range)),
            s,
            r,
            j,
            range,
            true,
        );
    }
}

proof fn lemma_comma_entries_after(s: Seq<ItemView>, j: int, range: Location)
    requires
        place(s, j),
        entries_after(s) is Ok,
        closes(entries_after(s)->Ok_0.1, TokenView::RightBracket),
    ensures
        same_with_comma(entries_after(s), entries_after(behind(s, j, range)), s, j, range, true),
    decreases s.len(), 0int,
{
    let t = behind(s, j, range);
    if let Ok(Some(rest)) = after_separator(s) {
        lemma_step(s, j, range);
        lemma_comma_entries(rest, j - 1, range);
        lemma_carry(
            parse_entries(rest),
            parse_entries(behind(rest, j - 1, range)),
            s,
            rest,
            j,
            range,
            true,
        );
    } else {
        assert(s.skip(0) =~= s);
        if j == 0 {
            assert(t.skip(1) =~= s);
        } else {
            lemma_step(s, j, range);
        }
    }
}

/// What stands between an opening token and the token behind the closing
/// one: the stream `s0` behind the opening token is read up to `s2`, where
/// the closing token stands.
proof fn lemma_comma_close<T>(
    a: Parsed<T>,
    b: Parsed<T>,
    s: Seq<ItemView>,
    s1: Seq<ItemView>,
    j: int,
    range: Location,
    closer: TokenView,
    d: Seq<char>,
)
    requires
        s1.len() <= s.len(),
        s1 == s.skip(s.len() - s1.len()),
        same_with_comma(a, b, s1, j - (s.len() - s1.len()), range, true),
        after_token(a->Ok_0.1, closer, d) is Ok,
    ensures
        ({
            let s2 = a->Ok_0.1;
            let left = s2.skip(1);
            let k = s.len() - left.len();
            &&& s2.len() > 0
            &&& after_token(s2, closer, d)->Ok_0 == left
            &&& left.len() <= s.len()
            &&& left == s.skip(k)
            &&& place(left, moved(j, k, false))
            &&& after_token(b->Ok_0.1, closer, d) == Ok::<Seq<ItemView>, Failure>(
                behind(left, moved(j, k, false), range),
            )
        }),
{
    let s2 = a->Ok_0.1;
    let j2 = moved(j - (s.len() - s1.len()), s1.len() - s2.len(), true);
    lemma_suffix(s, s1, s2);
    lemma_comma_token(s2, j2, range, closer, d);
    lemma_suffix(s, s2, s2.skip(1));
}

proof fn lemma_comma_key_value_pairs(s: Seq<ItemView>, j: int, range: Location)
    requires
        place(s, j),
        j != 0,
        s.len() > 0,
        s[0] is Ok,
        s[0]->Ok_0.token is LeftBrace,
        parse_key_value_pairs(s) is Ok,
    ensures
        same_with_comma(
            parse_key_value_pairs(s),
            parse_key_value_pairs(behind(s, j, range)),
            s,
            j,
            range,
            false,
        ),
    decreases s.len(), 8int,
{
    let closer = TokenView::RightBrace;
    lemma_step(s, j, range);
    let s0 = s.skip(1);
    lemma_comma_newline(s0, j - 1, range);
    let s1 = after_newline(s0)->Ok_0;
    lemma_suffix(s, s0, s1);
    let j1 = j - (s.len() - s1.len());
    lemma_comma_pairs(s1, j1, range);
    lemma_comma_close(
        parse_pairs(s1),
        parse_pairs(behind(s1, j1, range)),
        s,
        s1,
        j,
        range,
        closer,
        "right brace"@,
    );
}

proof fn lemma_comma_object(s: Seq<ItemView>, j: int, range: Location)
    requires
        place(s, j),
        j != 0,
        s.len() > 0,
        s[0] is Ok,
        s[0]->Ok_0.token is LeftBrace,
        parse_object(s) is Ok,
    ensures
        same_with_comma(parse_object(s), parse_object(behind(s, j, range)), s, j, range, false),
    decreases s.len(), 9int,
{
    lemma_comma_key_value_pairs(s, j, range);
}

proof fn lemma_comma_struct_variant(s: Seq<ItemView>, j: int, range: Location)
    requires
        place(s, j),
        j != 0,
        s.len() > 1,
        s[1] is Ok,
        s[1]->Ok_0.token is LeftBrace,
        parse_struct_variant(s) is Ok,
    ensures
        same_with_comma(
            parse_struct_variant(s),
            parse_struct_variant(behind(s, j, range)),
            s,
            j,
            range,
            false,
        ),
    decreases s.len(), 9int,
{
    lemma_step(s, j, range);
    let s0 = s.skip(1);
    lemma_comma_key_value_pairs(s0, j - 1, range);
    lemma_carry(
        parse_key_value_pairs(s0),
        parse_key_value_pairs(behind(s0, j - 1, range)),
        s,
        s0,
        j,
        range,
        false,
    );
}

proof fn lemma_comma_tuple(s: Seq<ItemView>, j: int, range: Location)
    requires
        place(s, j),
        j != 0,
        s.len() > 0,
        s[0] is Ok,
        s[0]->Ok_0.token is LeftParen,
        parse_tuple(s) is Ok,
    ensures
        same_with_comma(parse_tuple(s), parse_tuple(behind(s, j, range)), s, j, range, false),
    decreases s.len(), 9int,
{
    let closer = TokenView::RightParen;
    lemma_step(s, j, range);
    let s0 = s.skip(1);
    lemma_comma_newline(s0, j - 1, range);
    let s1 = after_newline(s0)->Ok_0;
    lemma_suffix(s, s0, s1);
    let j1 = j - (s.len() - s1.len());
    lemma_comma_values(s1, j1, range, closer);
    lemma_comma_close(
        parse_values(s1, closer),
        parse_values(behind(s1, j1, range), closer),
        s,
        s1,
        j,
        range,
        closer,
        "right parenthese"@,
    );
}

proof fn lemma_comma_tuple_variant(s: Seq<ItemView>, j: int, range: Location)
    requires
        place(s, j),
        j != 0,
        s.len() > 1,
        s[1] is Ok,
        s[1]->Ok_0.token is LeftParen,
        parse_tuple_variant(s) is Ok,
    ensures
        same_with_comma(
            parse_tuple_variant(s),
            parse_tuple_variant(behind(s, j, range)),
            s,
            j,
            range,
            false,
        ),
    decreases s.len(), 9int,
{
    let closer = TokenView::RightParen;
    let t = behind(s, j, range);
    lemma_step(s, j, range);
    let s9 = s.skip(1);
    lemma_step(s9, j - 1, range);
    let s0 = s.skip(2);
    assert(s9.skip(1) =~= s0);
    assert(t.skip(1).skip(1) =~= t.skip(2));
    lemma_comma_newline(s0, j - 2, range);
    let s1 = after_newline(s0)->Ok_0;
    lemma_suffix(s, s0, s1);
    let j1 = j - (s.len() - s1.len());
    lemma_comma_values(s1, j1, range, closer);
    lemma_comma_close(
        parse_values(s1, closer),
        parse_values(behind(s1, j1, range), closer),
        s,
        s1,
        j,
        range,
        closer,
        "right parenthese"@,
    );
}

/// Whether a colon follows the first value is the same with the comma.
proof fn lemma_comma_colon(s: Seq<ItemView>, j: int, range: Location)
    requires
        place(s, j),
        colon_follows(s) is Ok,
    ensures
        colon_follows(behind(s, j, range)) == colon_follows(s),
{
    if j != 0 && s.len() > 0 {
        lemma_step(s, j, range);
    }
}

proof fn lemma_comma_list(s: Seq<ItemView>, j: int, range: Location)
    requires
        place(s, j),
        j != 0,
        s.len() > 0,
        s[0] is Ok,
        s[0]->Ok_0.token is LeftBracket,
        parse_list(s) is Ok,
    ensures
        same_with_comma(parse_list(s), parse_list(behind(s, j, range)), s, j, range, false),
    decreases s.len(), 9int,
{
    let closer = TokenView::RightBracket;
    lemma_step(s, j, range);
    let s0 = s.skip(1);
    lemma_comma_newline(s0, j - 1, range);
    let s1 = after_newline(s0)->Ok_0;
    lemma_suffix(s, s0, s1);
    let j1 = j - (s.len() - s1.len());
    let t1 = behind(s1, j1, range);
    if s1.len() > 0 {
        lemma_step(s1, j1, range);
    }
    if at_end(s1, closer) {
        lemma_comma_token(s1, j1, range, closer, "right bracket"@);
        lemma_suffix(s, s1, s1.skip(1));
    } else {
        lemma_comma_node(s1, j1, range);
        let s2 = parse_node(s1)->Ok_0.1;
        let j2 = j1 - (s1.len() - s2.len());
        lemma_comma_colon(s2, j2, range);
        if colon_follows(s2) == Ok::<bool, Failure>(true) {
            lemma_comma_entries(s1, j1, range);
            lemma_comma_close(
                parse_entries(s1),
                parse_entries(t1),
                s,
                s1,
                j,
                range,
                closer,
                "right bracket"@,
            );
        } else {
            lemma_comma_values(s1, j1, range, closer);
            lemma_comma_close(
                parse_values(s1, closer),
                parse_values(t1, closer),
                s,
                s1,
                j,
                range,
                closer,
                "right bracket"@,
            );
        }
    }
}

/// A comma before a closing token, behind the last element, changes
/// nothing: a stream that is a document is the same document with a comma
/// put in at any such place, whatever the range of the comma.
pub proof fn lemma_trailing_comma(s: Seq<ItemView>, i: int, range: Location)
    requires
        comma_place(s, i),
        parse_document(s) is Ok,
    ensures
        parse_document(with_comma(s, i, range)) == parse_document(s),
{
    lemma_comma_node(s, i, range);
}

/// The stream `s` with a line break put in before the item at `i`.
pub open spec fn with_line_break(s: Seq<ItemView>, i: int, range: Location) -> Seq<ItemView> {
    s.take(i) + seq![token_item(TokenView::NewLine, range)] + s.skip(i)
}

/// A line break before a closing token, behind the last element, changes
/// nothing either.
pub proof fn lemma_trailing_line_break(s: Seq<ItemView>, i: int, range: Location)
    requires
        comma_place(s, i),
        parse_document(s) is Ok,
    ensures
        parse_document(with_line_break(s, i, range)) == parse_document(s),
{
    let comma = with_comma(s, i, range);
    let line_break = with_line_break(s, i, range);
    lemma_trailing_comma(s, i, range);
    assert forall|k: int| 0 <= k < comma.len() implies item_alike(
        #[trigger] comma[k],
        line_break[k],
    ) by {
        if k < i {
            assert(comma[k] == s[k] && line_break[k] == s[k]);
        } else if k > i {
            assert(comma[k] == s[k - 1] && line_break[k] == s[k - 1]);
        }
    }
    lemma_commas_as_line_breaks(comma, line_break);
}

} // verus!
