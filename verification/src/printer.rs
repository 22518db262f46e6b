use vstd::prelude::*;
use crate::ast::{
    entries_view, nodes_view, number_of, pairs_view, well_formed, AsonNode, KeyValuePair, NameValuePair,
    NodeView, Number, NumberView, VariantValue, VariantValueView, VariantView,
};
use crate::error::ErrorView;
use crate::parser::{
    Failure, after_newline, after_separator, after_token, at_end, colon_follows, entries_after,
    pairs_after, parse_document, parse_entries, parse_key_value_pairs, parse_list, parse_node,
    parse_object, parse_pairs, parse_struct_variant, parse_tuple, parse_tuple_variant,
    lemma_parsed_well_formed, parse_value_of_key, parse_values, values_after, with_first,
};
use crate::location::Location;
use crate::normalizer::token_item;
use crate::token::{
    duplicate_bytes, item_view, items_view, Item, ItemView, NumberToken, NumberTokenView, Token,
    TokenView, TokenWithRange,
};

verus! {

/// How the elements of a construct are set apart when a tree is written.
pub ghost struct Style {
    /// The token between two elements: a comma or a line break.
    pub separator: TokenView,
    /// Whether a separator stands behind the last element too.
    pub trailing: bool,
    /// The range that every written token is given.
    pub range: Location,
}

impl Style {
    /// Whether the separator of the style is one: a comma or a line break.
    pub open spec fn is_valid(self) -> bool {
        self.separator is Comma || self.separator is NewLine
    }

    /// The item of a token.
    pub open spec fn item(self, token: TokenView) -> ItemView {
        token_item(token, self.range)
    }

    /// What stands between the last element and the closing token.
    pub open spec fn end(self) -> Seq<ItemView> {
        if self.trailing {
            seq![self.item(self.separator)]
        } else {
            Seq::empty()
        }
    }
}

/// The token that writes a number: a signed number is written as the bit
/// pattern of its two's complement.
pub open spec fn number_token_of(n: NumberView) -> NumberTokenView {
    match n {
        NumberView::I8(v) => NumberTokenView::I8(
            if v < 0 {
                (v + 0x100) as u8
            } else {
                v as u8
            },
        ),
        NumberView::U8(v) => NumberTokenView::U8(v),
        NumberView::I16(v) => NumberTokenView::I16(
            if v < 0 {
                (v + 0x1_0000) as u16
            } else {
                v as u16
            },
        ),
        NumberView::U16(v) => NumberTokenView::U16(v),
        NumberView::I32(v) => NumberTokenView::I32(
            if v < 0 {
                (v + 0x1_0000_0000) as u32
            } else {
                v as u32
            },
        ),
        NumberView::U32(v) => NumberTokenView::U32(v),
        NumberView::I64(v) => NumberTokenView::I64(
            if v < 0 {
                (v + 0x1_0000_0000_0000_0000) as u64
            } else {
                v as u64
            },
        ),
        NumberView::U64(v) => NumberTokenView::U64(v),
        NumberView::F32(v) => NumberTokenView::F32(v),
        NumberView::F64(v) => NumberTokenView::F64(v),
    }
}

/// The tokens that write a tree.
pub open spec fn written(n: NodeView, style: Style) -> Seq<ItemView>
    decreases n, 0int,
{
    match n {
        NodeView::Number(x) => seq![style.item(TokenView::Number(number_token_of(x)))],
        NodeView::Boolean(b) => seq![style.item(TokenView::Boolean(b))],
        NodeView::Char(c) => seq![style.item(TokenView::Char(c))],
        NodeView::String(s) => seq![style.item(TokenView::String(s))],
        NodeView::DateTime(d) => seq![style.item(TokenView::Date(d))],
        NodeView::HexByteData(d) => seq![style.item(TokenView::HexByteData(d))],
        NodeView::List(items) => seq![style.item(TokenView::LeftBracket)] + written_values(
            items,
            0,
            style,
        ) + seq![style.item(TokenView::RightBracket)],
        NodeView::Tuple(items) => seq![style.item(TokenView::LeftParen)] + written_values(
            items,
            0,
            style,
        ) + seq![style.item(TokenView::RightParen)],
        NodeView::Object(pairs) => seq![style.item(TokenView::LeftBrace)] + written_pairs(
            pairs,
            0,
            style,
        ) + seq![style.item(TokenView::RightBrace)],
        NodeView::Mapping(entries) => seq![style.item(TokenView::LeftBracket)] + written_entries(
            entries,
            0,
            style,
        ) + seq![style.item(TokenView::RightBracket)],
        NodeView::Variant(v) => {
            let head = seq![style.item(TokenView::Variant(v.variant_type, v.member_name))];
            match v.value {
                VariantValueView::Empty => head,
                VariantValueView::Value(value) => head + seq![style.item(TokenView::LeftParen)]
                    + written(*value, style) + style.end() + seq![
                    style.item(TokenView::RightParen),
                ],
                VariantValueView::Tuple(items) => head + seq![style.item(TokenView::LeftParen)]
                    + written_values(items, 0, style) + seq![style.item(TokenView::RightParen)],
                VariantValueView::Object(pairs) => head + seq![style.item(TokenView::LeftBrace)]
                    + written_pairs(pairs, 0, style) + seq![style.item(TokenView::RightBrace)],
            }
        },
    }
}

/// The tokens that write the values `items[from..]`, with a separator
/// behind each of them but, unless the style asks for it, the last.
pub open spec fn written_values(items: Seq<NodeView>, from: int, style: Style) -> Seq<ItemView>
    decreases items, items.len() - from,
{
    if 0 <= from < items.len() {
        written(items[from], style) + (if from + 1 < items.len() {
            seq![style.item(style.separator)] + written_values(items, from + 1, style)
        } else {
            style.end()
        })
    } else {
        Seq::empty()
    }
}

/// The tokens that write the entries `pairs[from..]` of an object, with a
/// separator behind each of them but, unless the style asks for it, the
/// last.
pub open spec fn written_pairs(pairs: Seq<(Seq<char>, NodeView)>, from: int, style: Style) -> Seq<
    ItemView,
>
    decreases pairs, pairs.len() - from,
{
    if 0 <= from < pairs.len() {
        seq![style.item(TokenView::Identifier(pairs[from].0)), style.item(TokenView::Colon)]
            + written(pairs[from].1, style) + (if from + 1 < pairs.len() {
            seq![style.item(style.separator)] + written_pairs(pairs, from + 1, style)
        } else {
            style.end()
        })
    } else {
        Seq::empty()
    }
}

/// The tokens that write the entries `entries[from..]` of a map.
pub open spec fn written_entries(entries: Seq<(NodeView, NodeView)>, from: int, style: Style)
    -> Seq<ItemView>
    decreases entries, entries.len() - from,
{
    if 0 <= from < entries.len() {
        written(entries[from].0, style) + seq![style.item(TokenView::Colon)] + written(
            entries[from].1,
            style,
        ) + (if from + 1 < entries.len() {
            seq![style.item(style.separator)] + written_entries(entries, from + 1, style)
        } else {
            style.end()
        })
    } else {
        Seq::empty()
    }
}

/// A token that a value begins with.
pub open spec fn begins_value(item: ItemView) -> bool {
    item matches Ok(t) && (t.token is Number || t.token is Boolean || t.token is Char
        || t.token is String || t.token is Date || t.token is HexByteData || t.token is Variant
        || t.token is LeftBrace || t.token is LeftBracket || t.token is LeftParen)
}

/// What may stand behind a value: nothing, a separator, a colon, or a
/// closing token.
pub open spec fn follows_value(rest: Seq<ItemView>) -> bool {
    rest.len() == 0 || (rest[0] matches Ok(t) && (t.token is Comma || t.token is NewLine
        || t.token is Colon || t.token is RightParen || t.token is RightBracket
        || t.token is RightBrace))
}

/// What is written for a tree begins with a token that a value begins
/// with.
pub proof fn lemma_written_begins(n: NodeView, style: Style)
    ensures
        written(n, style).len() > 0,
        begins_value(written(n, style)[0]),
{
    match n {
        NodeView::Variant(v) => {
            match v.value {
                VariantValueView::Empty => {},
                _ => {},
            }
        },
        _ => {},
    }
}

/// The number that is read from the token that writes a number is that
/// number.
pub proof fn lemma_number_written(n: NumberView)
    ensures
        number_of(number_token_of(n)) == n,
{
}

/// The values that are written, with the closing token and anything
/// behind it, are read as those values, up to the closing token.
proof fn lemma_written_values(
    items: Seq<NodeView>,
    from: int,
    style: Style,
    closer: TokenView,
    rest: Seq<ItemView>,
)
    requires
        0 <= from < items.len(),
        forall|i: int| 0 <= i < items.len() ==> well_formed(#[trigger] items[i]),
        style.is_valid(),
        closer is RightParen || closer is RightBracket,
    ensures
        parse_values(
            written_values(items, from, style) + seq![style.item(closer)] + rest,
            closer,
        ) == Ok::<(Seq<NodeView>, Seq<ItemView>), Failure>(
            (items.skip(from), seq![style.item(closer)] + rest),
        ),
    decreases items, items.len() - from,
{
    let w = written(items[from], style);
    let tail = seq![style.item(closer)] + rest;
    let separator = seq![style.item(style.separator)];
    let more = if from + 1 < items.len() {
        separator + written_values(items, from + 1, style)
    } else {
        style.end()
    };
    let s = written_values(items, from, style) + seq![style.item(closer)] + rest;
    let rest1 = more + tail;
    assert(s =~= w + rest1);
    lemma_written_begins(items[from], style);
    assert(s[0] == w[0]);
    assert(!at_end(s, closer));
    assert(rest1[0] == style.item(style.separator) || rest1[0] == style.item(closer));
    assert(follows_value(rest1));
    lemma_written_node(items[from], style, rest1);
    assert(parse_node(s) == Ok::<(NodeView, Seq<ItemView>), Failure>((items[from], rest1)));
    assert(rest1.len() < s.len());
    if from + 1 < items.len() {
        lemma_written_values(items, from + 1, style, closer, rest);
        assert(rest1.skip(1) =~= written_values(items, from + 1, style) + seq![
            style.item(closer),
        ] + rest);
        assert(after_separator(rest1) == Ok::<Option<Seq<ItemView>>, Failure>(
            Some(rest1.skip(1)),
        ));
        assert(seq![items[from]] + items.skip(from + 1) =~= items.skip(from));
    } else {
        if style.trailing {
            assert(rest1.skip(1) =~= tail);
            assert(after_separator(rest1) == Ok::<Option<Seq<ItemView>>, Failure>(Some(tail)));
            assert(at_end(tail, closer));
        } else {
            assert(rest1 =~= tail);
            assert(after_separator(rest1) == Ok::<Option<Seq<ItemView>>, Failure>(None));
        }
        assert(values_after(rest1, closer) == Ok::<(Seq<NodeView>, Seq<ItemView>), Failure>(
            (Seq::empty(), tail),
        ));
        assert(seq![items[from]] + Seq::<NodeView>::empty() =~= items.skip(from));
    }
}

/// What is written behind a key, with anything behind it, is read as the
/// value of the key.
proof fn lemma_written_value_of_key(value: NodeView, style: Style, rest: Seq<ItemView>)
    requires
        well_formed(value),
        style.is_valid(),
        follows_value(rest),
        parse_node(written(value, style) + rest) == Ok::<(NodeView, Seq<ItemView>), Failure>(
            (value, rest),
        ),
    ensures
        parse_value_of_key(seq![style.item(TokenView::Colon)] + written(value, style) + rest)
            == Ok::<(NodeView, Seq<ItemView>), Failure>((value, rest)),
{
    let w = written(value, style);
    let s = seq![style.item(TokenView::Colon)] + w + rest;
    lemma_written_begins(value, style);
    assert(after_newline(s) == Ok::<Seq<ItemView>, Failure>(s));
    assert(s.skip(1) =~= w + rest);
    assert(after_token(s, TokenView::Colon, "colon sign"@) == Ok::<Seq<ItemView>, Failure>(
        w + rest,
    ));
    assert((w + rest)[0] == w[0]);
    assert(after_newline(w + rest) == Ok::<Seq<ItemView>, Failure>(w + rest));
}

/// The entries of an object that are written, with the closing brace and
/// anything behind it, are read as those entries, up to the brace.
proof fn lemma_written_pairs(
    pairs: Seq<(Seq<char>, NodeView)>,
    from: int,
    style: Style,
    rest: Seq<ItemView>,
)
    requires
        0 <= from <= pairs.len(),
        forall|i: int| 0 <= i < pairs.len() ==> well_formed((#[trigger] pairs[i]).1),
        style.is_valid(),
    ensures
        parse_pairs(
            written_pairs(pairs, from, style) + seq![style.item(TokenView::RightBrace)] + rest,
        ) == Ok::<(Seq<(Seq<char>, NodeView)>, Seq<ItemView>), Failure>(
            (pairs.skip(from), seq![style.item(TokenView::RightBrace)] + rest),
        ),
    decreases pairs, pairs.len() - from,
{
    let closer = TokenView::RightBrace;
    let tail = seq![style.item(closer)] + rest;
    let s = written_pairs(pairs, from, style) + seq![style.item(closer)] + rest;
    if from == pairs.len() {
        assert(s =~= tail);
        assert(at_end(s, closer));
        assert(pairs.skip(from) =~= Seq::empty());
    } else {
        let key = pairs[from].0;
        let value = pairs[from].1;
        let w = written(value, style);
        let separator = seq![style.item(style.separator)];
        let more = if from + 1 < pairs.len() {
            separator + written_pairs(pairs, from + 1, style)
        } else {
            style.end()
        };
        let rest1 = more + tail;
        let behind_key = seq![style.item(TokenView::Colon)] + w + rest1;
        assert(s =~= seq![style.item(TokenView::Identifier(key))] + behind_key);
        assert(s[0] == style.item(TokenView::Identifier(key)));
        assert(!at_end(s, closer));
        assert(s.skip(1) =~= behind_key);
        assert(rest1[0] == style.item(style.separator) || rest1[0] == style.item(closer));
        assert(follows_value(rest1));
        lemma_written_node(value, style, rest1);
        lemma_written_value_of_key(value, style, rest1);
        lemma_written_begins(value, style);
        assert(rest1.len() < s.len());
        if from + 1 < pairs.len() {
            lemma_written_pairs(pairs, from + 1, style, rest);
            assert(rest1.skip(1) =~= written_pairs(pairs, from + 1, style) + seq![
                style.item(closer),
            ] + rest);
            assert(after_separator(rest1) == Ok::<Option<Seq<ItemView>>, Failure>(
                Some(rest1.skip(1)),
            ));
            assert(seq![pairs[from]] + pairs.skip(from + 1) =~= pairs.skip(from));
        } else {
            if style.trailing {
                assert(rest1.skip(1) =~= tail);
                assert(after_separator(rest1) == Ok::<Option<Seq<ItemView>>, Failure>(
                    Some(tail),
                ));
                assert(at_end(tail, closer));
            } else {
                assert(rest1 =~= tail);
                assert(after_separator(rest1) == Ok::<Option<Seq<ItemView>>, Failure>(None));
            }
            assert(pairs_after(rest1) == Ok::<
                (Seq<(Seq<char>, NodeView)>, Seq<ItemView>),
                Failure,
            >((Seq::empty(), tail)));
            assert(seq![pairs[from]] + Seq::<(Seq<char>, NodeView)>::empty() =~= pairs.skip(
                from,
            ));
        }
        assert(pairs[from] == (key, value));
    }
}

/// The entries of a map that are written, with the closing bracket and
/// anything behind it, are read as those entries, up to the bracket.
proof fn lemma_written_entries(
    entries: Seq<(NodeView, NodeView)>,
    from: int,
    style: Style,
    rest: Seq<ItemView>,
)
    requires
        0 <= from <= entries.len(),
        forall|i: int|
            0 <= i < entries.len() ==> well_formed((#[trigger] entries[i]).0) && well_formed(
                entries[i].1,
            ),
        style.is_valid(),
    ensures
        parse_entries(
            written_entries(entries, from, style) + seq![style.item(TokenView::RightBracket)]
                + rest,
        ) == Ok::<(Seq<(NodeView, NodeView)>, Seq<ItemView>), Failure>(
            (entries.skip(from), seq![style.item(TokenView::RightBracket)] + rest),
        ),
    decreases entries, entries.len() - from,
{
    let closer = TokenView::RightBracket;
    let tail = seq![style.item(closer)] + rest;
    let s = written_entries(entries, from, style) + seq![style.item(closer)] + rest;
    if from == entries.len() {
        assert(s =~= tail);
        assert(at_end(s, closer));
        assert(entries.skip(from) =~= Seq::empty());
    } else {
        let name = entries[from].0;
        let value = entries[from].1;
        let wn = written(name, style);
        let w = written(value, style);
        let separator = seq![style.item(style.separator)];
        let more = if from + 1 < entries.len() {
            separator + written_entries(entries, from + 1, style)
        } else {
            style.end()
        };
        let rest1 = more + tail;
        let behind_name = seq![style.item(TokenView::Colon)] + w + rest1;
        assert(s =~= wn + behind_name);
        lemma_written_begins(name, style);
        lemma_written_begins(value, style);
        assert(s[0] == wn[0]);
        assert(!at_end(s, closer));
        assert(follows_value(behind_name));
        lemma_written_node(name, style, behind_name);
        assert(behind_name.len() < s.len());
        assert(rest1[0] == style.item(style.separator) || rest1[0] == style.item(closer));
        assert(follows_value(rest1));
        lemma_written_node(value, style, rest1);
        lemma_written_value_of_key(value, style, rest1);
        assert(rest1.len() < s.len());
        if from + 1 < entries.len() {
            lemma_written_entries(entries, from + 1, style, rest);
            assert(rest1.skip(1) =~= written_entries(entries, from + 1, style) + seq![
                style.item(closer),
            ] + rest);
            assert(after_separator(rest1) == Ok::<Option<Seq<ItemView>>, Failure>(
                Some(rest1.skip(1)),
            ));
            assert(seq![entries[from]] + entries.skip(from + 1) =~= entries.skip(from));
        } else {
            if style.trailing {
                assert(rest1.skip(1) =~= tail);
                assert(after_separator(rest1) == Ok::<Option<Seq<ItemView>>, Failure>(
                    Some(tail),
                ));
                assert(at_end(tail, closer));
            } else {
                assert(rest1 =~= tail);
                assert(after_separator(rest1) == Ok::<Option<Seq<ItemView>>, Failure>(None));
            }
            assert(entries_after(rest1) == Ok::<
                (Seq<(NodeView, NodeView)>, Seq<ItemView>),
                Failure,
            >((Seq::empty(), tail)));
            assert(seq![entries[from]] + Seq::<(NodeView, NodeView)>::empty() =~= entries.skip(
                from,
            ));
        }
        assert(entries[from] == (name, value));
    }
}

/// What is written for a tree, with anything behind it that may follow a
/// value, is read as the tree, up to what stands behind it.
pub proof fn lemma_written_node(n: NodeView, style: Style, rest: Seq<ItemView>)
    requires
        well_formed(n),
        style.is_valid(),
        follows_value(rest),
    ensures
        parse_node(written(n, style) + rest) == Ok::<(NodeView, Seq<ItemView>), Failure>(
            (n, rest),
        ),
    decreases n, 2int,
{
    let s = written(n, style) + rest;
    match n {
        NodeView::Number(x) => {
            lemma_number_written(x);
            assert(s.skip(1) =~= rest);
        },
        NodeView::Boolean(_) => {
            assert(s.skip(1) =~= rest);
        },
        NodeView::Char(_) => {
            assert(s.skip(1) =~= rest);
        },
        NodeView::String(_) => {
            assert(s.skip(1) =~= rest);
        },
        NodeView::DateTime(_) => {
            assert(s.skip(1) =~= rest);
        },
        NodeView::HexByteData(_) => {
            assert(s.skip(1) =~= rest);
        },
        NodeView::Tuple(items) => {
            lemma_written_tuple(items, style, rest);
        },
        NodeView::List(items) => {
            lemma_written_list(items, style, rest);
        },
        NodeView::Mapping(entries) => {
            lemma_written_mapping(entries, style, rest);
        },
        NodeView::Object(pairs) => {
            lemma_written_object(pairs, style, rest);
        },
        NodeView::Variant(v) => {
            lemma_written_variant(v, style, rest);
        },
    }
}

proof fn lemma_written_tuple(items: Seq<NodeView>, style: Style, rest: Seq<ItemView>)
    requires
        well_formed(NodeView::Tuple(items)),
        style.is_valid(),
    ensures
        parse_node(written(NodeView::Tuple(items), style) + rest) == Ok::<
            (NodeView, Seq<ItemView>),
            Failure,
        >((NodeView::Tuple(items), rest)),
    decreases NodeView::Tuple(items), 0int,
{
    let closer = TokenView::RightParen;
    let close = seq![style.item(closer)];
    let v = written_values(items, 0, style);
    let s = written(NodeView::Tuple(items), style) + rest;
    let inner = v + close + rest;
    assert(s =~= seq![style.item(TokenView::LeftParen)] + inner);
    assert(s.skip(1) =~= inner);
    lemma_written_begins(items[0], style);
    assert(inner[0] == written(items[0], style)[0]);
    assert(after_newline(inner) == Ok::<Seq<ItemView>, Failure>(inner));
    lemma_written_values(items, 0, style, closer, rest);
    assert(items.skip(0) =~= items);
    assert((close + rest).skip(1) =~= rest);
    assert(after_token(close + rest, closer, "right parenthese"@) == Ok::<
        Seq<ItemView>,
        Failure,
    >(rest));
    assert(parse_tuple(s) == Ok::<(NodeView, Seq<ItemView>), Failure>(
        (NodeView::Tuple(items), rest),
    ));
}

proof fn lemma_written_list(items: Seq<NodeView>, style: Style, rest: Seq<ItemView>)
    requires
        well_formed(NodeView::List(items)),
        style.is_valid(),
    ensures
        parse_node(written(NodeView::List(items), style) + rest) == Ok::<
            (NodeView, Seq<ItemView>),
            Failure,
        >((NodeView::List(items), rest)),
    decreases NodeView::List(items), 0int,
{
    let closer = TokenView::RightBracket;
    let close = seq![style.item(closer)];
    let tail = close + rest;
    let v = written_values(items, 0, style);
    let s = written(NodeView::List(items), style) + rest;
    let inner = v + close + rest;
    assert(s =~= seq![style.item(TokenView::LeftBracket)] + inner);
    assert(s.skip(1) =~= inner);
    let w = written(items[0], style);
    lemma_written_begins(items[0], style);
    let separator = seq![style.item(style.separator)];
    let more = if 1 < items.len() {
        separator + written_values(items, 1, style)
    } else {
        style.end()
    };
    let rest1 = more + tail;
    assert(inner =~= w + rest1);
    assert(inner[0] == w[0]);
    assert(after_newline(inner) == Ok::<Seq<ItemView>, Failure>(inner));
    assert(!at_end(inner, closer));
    assert(rest1[0] == style.item(style.separator) || rest1[0] == style.item(closer));
    assert(follows_value(rest1));
    lemma_written_node(items[0], style, rest1);
    // no colon stands behind the first value
    if 1 < items.len() {
        lemma_written_begins(items[1], style);
        assert(rest1[1] == written_values(items, 1, style)[0]);
        assert(rest1[1] == written(items[1], style)[0]);
    } else if style.trailing {
        assert(rest1[1] == style.item(closer));
    }
    assert(colon_follows(rest1) == Ok::<bool, Failure>(false));
    lemma_written_values(items, 0, style, closer, rest);
    assert(items.skip(0) =~= items);
    assert(tail.skip(1) =~= rest);
    assert(after_token(tail, closer, "right bracket"@) == Ok::<Seq<ItemView>, Failure>(rest));
    assert(parse_list(s) == Ok::<(NodeView, Seq<ItemView>), Failure>(
        (NodeView::List(items), rest),
    ));
}

proof fn lemma_written_mapping(
    entries: Seq<(NodeView, NodeView)>,
    style: Style,
    rest: Seq<ItemView>,
)
    requires
        well_formed(NodeView::Mapping(entries)),
        style.is_valid(),
    ensures
        parse_node(written(NodeView::Mapping(entries), style) + rest) == Ok::<
            (NodeView, Seq<ItemView>),
            Failure,
        >((NodeView::Mapping(entries), rest)),
    decreases NodeView::Mapping(entries), 0int,
{
    let closer = TokenView::RightBracket;
    let close = seq![style.item(closer)];
    let tail = close + rest;
    let v = written_entries(entries, 0, style);
    let s = written(NodeView::Mapping(entries), style) + rest;
    let inner = v + close + rest;
    assert(s =~= seq![style.item(TokenView::LeftBracket)] + inner);
    assert(s.skip(1) =~= inner);
    assert(tail.skip(1) =~= rest);
    assert(after_token(tail, closer, "right bracket"@) == Ok::<Seq<ItemView>, Failure>(rest));
    lemma_written_entries(entries, 0, style, rest);
    assert(entries.skip(0) =~= entries);
    if entries.len() == 0 {
        assert(inner =~= tail);
        assert(after_newline(inner) == Ok::<Seq<ItemView>, Failure>(inner));
        assert(at_end(inner, closer));
        assert(entries =~= Seq::empty());
    } else {
        let name = entries[0].0;
        let value = entries[0].1;
        let wn = written(name, style);
        let w = written(value, style);
        lemma_written_begins(name, style);
        let separator = seq![style.item(style.separator)];
        let more = if 1 < entries.len() {
            separator + written_entries(entries, 1, style)
        } else {
            style.end()
        };
        let behind_name = seq![style.item(TokenView::Colon)] + w + (more + tail);
        assert(inner =~= wn + behind_name);
        assert(inner[0] == wn[0]);
        assert(after_newline(inner) == Ok::<Seq<ItemView>, Failure>(inner));
        assert(!at_end(inner, closer));
        assert(follows_value(behind_name));
        lemma_written_node(name, style, behind_name);
        assert(colon_follows(behind_name) == Ok::<bool, Failure>(true));
    }
    assert(parse_list(s) == Ok::<(NodeView, Seq<ItemView>), Failure>(
        (NodeView::Mapping(entries), rest),
    ));
}

/// The entries between braces that are written, with anything behind the
/// closing brace, are read as those entries.
proof fn lemma_written_braces(
    pairs: Seq<(Seq<char>, NodeView)>,
    style: Style,
    rest: Seq<ItemView>,
)
    requires
        forall|i: int| 0 <= i < pairs.len() ==> well_formed((#[trigger] pairs[i]).1),
        style.is_valid(),
    ensures
        parse_key_value_pairs(
            seq![style.item(TokenView::LeftBrace)] + written_pairs(pairs, 0, style) + seq![
                style.item(TokenView::RightBrace),
            ] + rest,
        ) == Ok::<(Seq<(Seq<char>, NodeView)>, Seq<ItemView>), Failure>((pairs, rest)),
    decreases pairs, pairs.len() + 1,
{
    let closer = TokenView::RightBrace;
    let close = seq![style.item(closer)];
    let tail = close + rest;
    let v = written_pairs(pairs, 0, style);
    let s = seq![style.item(TokenView::LeftBrace)] + v + close + rest;
    let inner = v + close + rest;
    assert(s =~= seq![style.item(TokenView::LeftBrace)] + inner);
    assert(s.skip(1) =~= inner);
    if pairs.len() == 0 {
        assert(inner =~= tail);
    } else {
        assert(inner[0] == style.item(TokenView::Identifier(pairs[0].0)));
    }
    assert(after_newline(inner) == Ok::<Seq<ItemView>, Failure>(inner));
    lemma_written_pairs(pairs, 0, style, rest);
    assert(pairs.skip(0) =~= pairs);
    assert(tail.skip(1) =~= rest);
    assert(after_token(tail, closer, "right brace"@) == Ok::<Seq<ItemView>, Failure>(rest));
}

proof fn lemma_written_object(
    pairs: Seq<(Seq<char>, NodeView)>,
    style: Style,
    rest: Seq<ItemView>,
)
    requires
        well_formed(NodeView::Object(pairs)),
        style.is_valid(),
    ensures
        parse_node(written(NodeView::Object(pairs), style) + rest) == Ok::<
            (NodeView, Seq<ItemView>),
            Failure,
        >((NodeView::Object(pairs), rest)),
    decreases NodeView::Object(pairs), 0int,
{
    let s = written(NodeView::Object(pairs), style) + rest;
    lemma_written_braces(pairs, style, rest);
    assert(s =~= seq![style.item(TokenView::LeftBrace)] + written_pairs(pairs, 0, style) + seq![
        style.item(TokenView::RightBrace),
    ] + rest);
    assert(parse_object(s) == Ok::<(NodeView, Seq<ItemView>), Failure>(
        (NodeView::Object(pairs), rest),
    ));
}

proof fn lemma_written_variant(v: VariantView, style: Style, rest: Seq<ItemView>)
    requires
        well_formed(NodeView::Variant(v)),
        style.is_valid(),
        follows_value(rest),
    ensures
        parse_node(written(NodeView::Variant(v), style) + rest) == Ok::<
            (NodeView, Seq<ItemView>),
            Failure,
        >((NodeView::Variant(v), rest)),
    decreases NodeView::Variant(v), 1int,
{
    let n = NodeView::Variant(v);
    let s = written(n, style) + rest;
    let head = style.item(TokenView::Variant(v.variant_type, v.member_name));
    assert(s[0] == head);
    match v.value {
        VariantValueView::Empty => {
            assert(s =~= seq![head] + rest);
            assert(s.skip(1) =~= rest);
            if rest.len() > 0 {
                assert(s[1] == rest[0]);
            }
        },
        VariantValueView::Value(value) => {
            lemma_written_variant_value(v, *value, style, rest);
            assert(s[1] == style.item(TokenView::LeftParen));
        },
        VariantValueView::Tuple(items) => {
            lemma_written_variant_tuple(v, items, style, rest);
            assert(s[1] == style.item(TokenView::LeftParen));
        },
        VariantValueView::Object(pairs) => {
            lemma_written_variant_object(v, pairs, style, rest);
            assert(s[1] == style.item(TokenView::LeftBrace));
        },
    }
}

proof fn lemma_written_variant_value(
    v: VariantView,
    value: NodeView,
    style: Style,
    rest: Seq<ItemView>,
)
    requires
        v.value == VariantValueView::Value(Box::new(value)),
        well_formed(value),
        style.is_valid(),
    ensures
        parse_tuple_variant(written(NodeView::Variant(v), style) + rest) == Ok::<
            (NodeView, Seq<ItemView>),
            Failure,
        >((NodeView::Variant(v), rest)),
    decreases NodeView::Variant(v), 0int,
{
    let n = NodeView::Variant(v);
    let s = written(n, style) + rest;
    let head = style.item(TokenView::Variant(v.variant_type, v.member_name));
    let closer = TokenView::RightParen;
    let close = seq![style.item(closer)];
    let tail = close + rest;
    let w = written(value, style);
    let rest1 = style.end() + tail;
    let inner = w + rest1;
    assert(s =~= seq![head, style.item(TokenView::LeftParen)] + inner);
    assert(s[0] == head);
    assert(s[1] == style.item(TokenView::LeftParen));
    assert(s.skip(2) =~= inner);
    lemma_written_begins(value, style);
    assert(inner[0] == w[0]);
    assert(after_newline(inner) == Ok::<Seq<ItemView>, Failure>(inner));
    assert(!at_end(inner, closer));
    assert(rest1[0] == style.item(style.separator) || rest1[0] == style.item(closer));
    assert(follows_value(rest1));
    lemma_written_node(value, style, rest1);
    if style.trailing {
        assert(rest1.skip(1) =~= tail);
        assert(after_separator(rest1) == Ok::<Option<Seq<ItemView>>, Failure>(Some(tail)));
        assert(at_end(tail, closer));
    } else {
        assert(rest1 =~= tail);
        assert(after_separator(rest1) == Ok::<Option<Seq<ItemView>>, Failure>(None));
    }
    assert(values_after(rest1, closer) == Ok::<(Seq<NodeView>, Seq<ItemView>), Failure>(
        (Seq::empty(), tail),
    ));
    assert(seq![value] + Seq::<NodeView>::empty() =~= seq![value]);
    assert(parse_values(inner, closer) == Ok::<(Seq<NodeView>, Seq<ItemView>), Failure>(
        (seq![value], tail),
    ));
    assert(tail.skip(1) =~= rest);
    assert(after_token(tail, closer, "right parenthese"@) == Ok::<Seq<ItemView>, Failure>(rest));
}

proof fn lemma_written_variant_tuple(
    v: VariantView,
    items: Seq<NodeView>,
    style: Style,
    rest: Seq<ItemView>,
)
    requires
        v.value == VariantValueView::Tuple(items),
        well_formed(NodeView::Variant(v)),
        style.is_valid(),
    ensures
        parse_tuple_variant(written(NodeView::Variant(v), style) + rest) == Ok::<
            (NodeView, Seq<ItemView>),
            Failure,
        >((NodeView::Variant(v), rest)),
    decreases NodeView::Variant(v), 0int,
{
    let n = NodeView::Variant(v);
    let s = written(n, style) + rest;
    let head = style.item(TokenView::Variant(v.variant_type, v.member_name));
    let closer = TokenView::RightParen;
    let close = seq![style.item(closer)];
    let tail = close + rest;
    let inner = written_values(items, 0, style) + close + rest;
    assert(s =~= seq![head, style.item(TokenView::LeftParen)] + inner);
    assert(s[0] == head);
    assert(s[1] == style.item(TokenView::LeftParen));
    assert(s.skip(2) =~= inner);
    lemma_written_begins(items[0], style);
    assert(inner[0] == written(items[0], style)[0]);
    assert(after_newline(inner) == Ok::<Seq<ItemView>, Failure>(inner));
    lemma_written_values(items, 0, style, closer, rest);
    assert(items.skip(0) =~= items);
    assert(tail.skip(1) =~= rest);
    assert(after_token(tail, closer, "right parenthese"@) == Ok::<Seq<ItemView>, Failure>(rest));
}

proof fn lemma_written_variant_object(
    v: VariantView,
    pairs: Seq<(Seq<char>, NodeView)>,
    style: Style,
    rest: Seq<ItemView>,
)
    requires
        v.value == VariantValueView::Object(pairs),
        well_formed(NodeView::Variant(v)),
        style.is_valid(),
    ensures
        parse_struct_variant(written(NodeView::Variant(v), style) + rest) == Ok::<
            (NodeView, Seq<ItemView>),
            Failure,
        >((NodeView::Variant(v), rest)),
    decreases NodeView::Variant(v), 0int,
{
    let n = NodeView::Variant(v);
    let s = written(n, style) + rest;
    let head = style.item(TokenView::Variant(v.variant_type, v.member_name));
    let braces = seq![style.item(TokenView::LeftBrace)] + written_pairs(pairs, 0, style) + seq![
        style.item(TokenView::RightBrace),
    ] + rest;
    assert(s =~= seq![head] + braces);
    assert(s[0] == head);
    assert(s.skip(1) =~= braces);
    lemma_written_braces(pairs, style, rest);
}

/// A tree that can come from a document, written in any style, is read
/// back as the same tree: with commas or with line breaks between the
/// elements, and with or without a separator behind the last of them.
pub proof fn lemma_written_is_read(n: NodeView, style: Style)
    requires
        well_formed(n),
        style.is_valid(),
    ensures
        parse_document(written(n, style)) == Ok::<NodeView, ErrorView>(n),
{
    lemma_written_node(n, style, Seq::empty());
    assert(written(n, style) + Seq::<ItemView>::empty() =~= written(n, style));
}

/// The tree of a document that is read, written in any style, is read back
/// as the same tree: writing and reading lose nothing of what was read.
pub proof fn lemma_round_trip(s: Seq<ItemView>, style: Style)
    requires
        parse_document(s) is Ok,
        style.is_valid(),
    ensures
        parse_document(written(parse_document(s)->Ok_0, style)) == parse_document(s),
{
    lemma_parsed_well_formed(s);
    lemma_written_is_read(parse_document(s)->Ok_0, style);
}

/// The token between two elements.
#[derive(Debug, PartialEq, Eq, Clone, Copy, Structural)]
pub enum Separator {
    Comma,
    NewLine,
}

/// How a tree is written as tokens.
#[derive(Debug, PartialEq, Eq, Clone, Copy, Structural)]
pub struct WriteStyle {
    /// The token between two elements.
    pub separator: Separator,
    /// Whether a separator stands behind the last element too.
    pub trailing: bool,
    /// The range that every token is given.
    pub range: Location,
}

impl View for WriteStyle {
    type V = Style;

    open spec fn view(&self) -> Style {
        Style {
            separator: match self.separator {
                Separator::Comma => TokenView::Comma,
                Separator::NewLine => TokenView::NewLine,
            },
            trailing: self.trailing,
            range: self.range,
        }
    }
}

/// The token that writes a number.
pub fn number_token(n: &Number) -> (r: NumberToken)
    ensures
        r@ == number_token_of(n@),
{
    match n {
        Number::I8(v) => NumberToken::I8(
            if *v < 0 {
                ((*v + 0x7f + 1) as u8) + 0x80
            } else {
                *v as u8
            },
        ),
        Number::U8(v) => NumberToken::U8(*v),
        Number::I16(v) => NumberToken::I16(
            if *v < 0 {
                ((*v + 0x7fff + 1) as u16) + 0x8000
            } else {
                *v as u16
            },
        ),
        Number::U16(v) => NumberToken::U16(*v),
        Number::I32(v) => NumberToken::I32(
            if *v < 0 {
                ((*v + 0x7fff_ffff + 1) as u32) + 0x8000_0000
            } else {
                *v as u32
            },
        ),
        Number::U32(v) => NumberToken::U32(*v),
        Number::I64(v) => NumberToken::I64(
            if *v < 0 {
                ((*v + 0x7fff_ffff_ffff_ffff + 1) as u64) + 0x8000_0000_0000_0000
            } else {
                *v as u64
            },
        ),
        Number::U64(v) => NumberToken::U64(*v),
        Number::F32(v) => NumberToken::F32(v.duplicate()),
        Number::F64(v) => NumberToken::F64(v.duplicate()),
    }
}

/// Adds a token to the tokens written so far.
fn push_token(out: &mut Vec<Item>, token: Token, style: &WriteStyle)
    ensures
        items_view(final(out)@) == items_view(old(out)@) + seq![style@.item(token@)],
{
    out.push(Ok(TokenWithRange::new(token, style.range)));
    assert(items_view(out@) =~= items_view(old(out)@) + seq![style@.item(token@)]);
}

/// Adds the separator of the style.
fn push_separator(out: &mut Vec<Item>, style: &WriteStyle)
    ensures
        items_view(final(out)@) == items_view(old(out)@) + seq![
            style@.item(style@.separator),
        ],
{
    match style.separator {
        Separator::Comma => push_token(out, Token::Comma, style),
        Separator::NewLine => push_token(out, Token::NewLine, style),
    }
}

/// Adds what the style puts behind the last element.
fn push_end(out: &mut Vec<Item>, style: &WriteStyle)
    ensures
        items_view(final(out)@) == items_view(old(out)@) + style@.end(),
{
    if style.trailing {
        push_separator(out, style);
    } else {
        assert(items_view(out@) + Seq::<ItemView>::empty() =~= items_view(out@));
    }
}

/// Adds the tokens that write the values.
fn write_values(items: &Vec<AsonNode>, style: &WriteStyle, out: &mut Vec<Item>)
    ensures
        items_view(final(out)@) == items_view(old(out)@) + written_values(
            nodes_view(items@),
            0,
            style@,
        ),
    decreases items,
{
    let ghost views = nodes_view(items@);
    let ghost target = items_view(out@) + written_values(views, 0, style@);
    let mut k: usize = 0;
    proof {
        if items.len() == 0 {
            assert(target =~= items_view(out@));
        }
    }
    while k < items.len()
        invariant
            k <= items.len(),
            views == nodes_view(items@),
            target == items_view(old(out)@) + written_values(views, 0, style@),
            k < items.len() ==> target == items_view(out@) + written_values(
                views,
                k as int,
                style@,
            ),
            k == items.len() ==> target == items_view(out@),
        decreases items.len() - k,
    {
        let ghost before = items_view(out@);
        let ghost w = written(views[k as int], style@);
        write_node(&items[k], style, out);
        if k + 1 < items.len() {
            push_separator(out, style);
            assert(before + w + seq![style@.item(style@.separator)] + written_values(
                views,
                k + 1,
                style@,
            ) =~= before + written_values(views, k as int, style@));
        } else {
            push_end(out, style);
            assert(before + w + style@.end() =~= before + written_values(
                views,
                k as int,
                style@,
            ));
        }
        k += 1;
    }
}

/// Adds the tokens that write the entries of an object.
fn write_pairs(pairs: &Vec<KeyValuePair>, style: &WriteStyle, out: &mut Vec<Item>)
    ensures
        items_view(final(out)@) == items_view(old(out)@) + written_pairs(
            pairs_view(pairs@),
            0,
            style@,
        ),
    decreases pairs,
{
    let ghost views = pairs_view(pairs@);
    let ghost target = items_view(out@) + written_pairs(views, 0, style@);
    let mut k: usize = 0;
    proof {
        if pairs.len() == 0 {
            assert(target =~= items_view(out@));
        }
    }
    while k < pairs.len()
        invariant
            k <= pairs.len(),
            views == pairs_view(pairs@),
            target == items_view(old(out)@) + written_pairs(views, 0, style@),
            k < pairs.len() ==> target == items_view(out@) + written_pairs(
                views,
                k as int,
                style@,
            ),
            k == pairs.len() ==> target == items_view(out@),
        decreases pairs.len() - k,
    {
        let ghost before = items_view(out@);
        let ghost head = seq![
            style@.item(TokenView::Identifier(views[k as int].0)),
            style@.item(TokenView::Colon),
        ];
        let ghost w = written(views[k as int].1, style@);
        push_token(out, Token::Identifier(pairs[k].key.clone()), style);
        push_token(out, Token::Colon, style);
        write_node(&*pairs[k].value, style, out);
        if k + 1 < pairs.len() {
            push_separator(out, style);
            assert(before + seq![style@.item(TokenView::Identifier(views[k as int].0))] + seq![
                style@.item(TokenView::Colon),
            ] + w + seq![style@.item(style@.separator)] + written_pairs(views, k + 1, style@)
                =~= before + written_pairs(views, k as int, style@));
        } else {
            push_end(out, style);
            assert(before + seq![style@.item(TokenView::Identifier(views[k as int].0))] + seq![
                style@.item(TokenView::Colon),
            ] + w + style@.end() =~= before + written_pairs(views, k as int, style@));
        }
        k += 1;
    }
}

/// Adds the tokens that write the entries of a map.
fn write_entries(entries: &Vec<NameValuePair>, style: &WriteStyle, out: &mut Vec<Item>)
    ensures
        items_view(final(out)@) == items_view(old(out)@) + written_entries(
            entries_view(entries@),
            0,
            style@,
        ),
    decreases entries,
{
    let ghost views = entries_view(entries@);
    let ghost target = items_view(out@) + written_entries(views, 0, style@);
    let mut k: usize = 0;
    proof {
        if entries.len() == 0 {
            assert(target =~= items_view(out@));
        }
    }
    while k < entries.len()
        invariant
            k <= entries.len(),
            views == entries_view(entries@),
            target == items_view(old(out)@) + written_entries(views, 0, style@),
            k < entries.len() ==> target == items_view(out@) + written_entries(
                views,
                k as int,
                style@,
            ),
            k == entries.len() ==> target == items_view(out@),
        decreases entries.len() - k,
    {
        let ghost before = items_view(out@);
        let ghost wn = written(views[k as int].0, style@);
        let ghost w = written(views[k as int].1, style@);
        write_node(&*entries[k].name, style, out);
        push_token(out, Token::Colon, style);
        write_node(&*entries[k].value, style, out);
        if k + 1 < entries.len() {
            push_separator(out, style);
            assert(before + wn + seq![style@.item(TokenView::Colon)] + w + seq![
                style@.item(style@.separator),
            ] + written_entries(views, k + 1, style@) =~= before + written_entries(
                views,
                k as int,
                style@,
            ));
        } else {
            push_end(out, style);
            assert(before + wn + seq![style@.item(TokenView::Colon)] + w + style@.end()
                =~= before + written_entries(views, k as int, style@));
        }
        k += 1;
    }
}

/// Adds the tokens that write a tree.
pub fn write_node(node: &AsonNode, style: &WriteStyle, out: &mut Vec<Item>)
    ensures
        items_view(final(out)@) == items_view(old(out)@) + written(node@, style@),
    decreases node,
{
    let ghost before = items_view(out@);
    match node {
        AsonNode::Number(n) => push_token(out, Token::Number(number_token(n)), style),
        AsonNode::Boolean(b) => push_token(out, Token::Boolean(*b), style),
        AsonNode::Char(c) => push_token(out, Token::Char(*c), style),
        AsonNode::String(v) => push_token(out, Token::String(v.clone()), style),
        AsonNode::DateTime(d) => push_token(out, Token::Date(*d), style),
        AsonNode::HexByteData(d) => push_token(out, Token::HexByteData(duplicate_bytes(d)), style),
        AsonNode::List(items) => {
            assert(node@->List_0 =~= nodes_view(items@));
            push_token(out, Token::LeftBracket, style);
            write_values(items, style, out);
            push_token(out, Token::RightBracket, style);
            assert(items_view(out@) =~= before + written(node@, style@));
        },
        AsonNode::Tuple(items) => {
            assert(node@->Tuple_0 =~= nodes_view(items@));
            push_token(out, Token::LeftParen, style);
            write_values(items, style, out);
            push_token(out, Token::RightParen, style);
            assert(items_view(out@) =~= before + written(node@, style@));
        },
        AsonNode::Object(pairs) => {
            assert(node@->Object_0 =~= pairs_view(pairs@));
            push_token(out, Token::LeftBrace, style);
            write_pairs(pairs, style, out);
            push_token(out, Token::RightBrace, style);
            assert(items_view(out@) =~= before + written(node@, style@));
        },
        AsonNode::Mapping(entries) => {
            assert(node@->Mapping_0 =~= entries_view(entries@));
            push_token(out, Token::LeftBracket, style);
            write_entries(entries, style, out);
            push_token(out, Token::RightBracket, style);
            assert(items_view(out@) =~= before + written(node@, style@));
        },
        AsonNode::Variant(v) => {
            push_token(
                out,
                Token::Variant(v.variant_type.clone(), v.member_name.clone()),
                style,
            );
            match &v.value {
                VariantValue::Empty => {},
                VariantValue::Value(value) => {
                    push_token(out, Token::LeftParen, style);
                    write_node(&**value, style, out);
                    push_end(out, style);
                    push_token(out, Token::RightParen, style);
                    assert(items_view(out@) =~= before + written(node@, style@));
                },
                VariantValue::Tuple(items) => {
                    assert(node@->Variant_0.value->Tuple_0 =~= nodes_view(items@));
                    push_token(out, Token::LeftParen, style);
                    write_values(items, style, out);
                    push_token(out, Token::RightParen, style);
                    assert(items_view(out@) =~= before + written(node@, style@));
                },
                VariantValue::Object(pairs) => {
                    assert(node@->Variant_0.value->Object_0 =~= pairs_view(pairs@));
                    push_token(out, Token::LeftBrace, style);
                    write_pairs(pairs, style, out);
                    push_token(out, Token::RightBrace, style);
                    assert(items_view(out@) =~= before + written(node@, style@));
                },
            }
        },
    }
}

/// The tokens that write a tree, in the style given.
pub fn print_to_tokens(node: &AsonNode, style: &WriteStyle) -> (r: Vec<Item>)
    ensures
        items_view(r@) == written(node@, style@),
{
    let mut out: Vec<Item> = Vec::new();
    write_node(node, style, &mut out);
    assert(items_view(Seq::<Item>::empty()) + written(node@, style@) =~= written(node@, style@));
    out
}

} // verus!
