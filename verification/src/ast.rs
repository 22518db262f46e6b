use vstd::prelude::*;
use crate::date::Date;
use crate::token::{FloatLiteral, FloatView, NumberToken, NumberTokenView};

verus! {

/// A number of the value tree. The integer buckets hold signed and unsigned
/// values as such; the floating-point buckets hold the literal.
#[derive(Debug, PartialEq, Clone)]
pub enum Number {
    I8(i8),
    U8(u8),
    I16(i16),
    U16(u16),
    I32(i32),
    U32(u32),
    I64(i64),
    U64(u64),
    F32(FloatLiteral),
    F64(FloatLiteral),
}

/// The mathematical value of a [`Number`].
pub ghost enum NumberView {
    I8(i8),
    U8(u8),
    I16(i16),
    U16(u16),
    I32(i32),
    U32(u32),
    I64(i64),
    U64(u64),
    F32(FloatView),
    F64(FloatView),
}

impl View for Number {
    type V = NumberView;

    open spec fn view(&self) -> NumberView {
        match self {
            Number::I8(v) => NumberView::I8(*v),
            Number::U8(v) => NumberView::U8(*v),
            Number::I16(v) => NumberView::I16(*v),
            Number::U16(v) => NumberView::U16(*v),
            Number::I32(v) => NumberView::I32(*v),
            Number::U32(v) => NumberView::U32(*v),
            Number::I64(v) => NumberView::I64(*v),
            Number::U64(v) => NumberView::U64(*v),
            Number::F32(v) => NumberView::F32(v@),
            Number::F64(v) => NumberView::F64(v@),
        }
    }
}

/// The number that a number token stands for: a signed bucket is read as
/// the two's complement value of its bit pattern.
pub open spec fn number_of(token: NumberTokenView) -> NumberView {
    match token {
        NumberTokenView::I8(_) => NumberView::I8(token.signed_value() as i8),
        NumberTokenView::U8(v) => NumberView::U8(v),
        NumberTokenView::I16(_) => NumberView::I16(token.signed_value() as i16),
        NumberTokenView::U16(v) => NumberView::U16(v),
        NumberTokenView::I32(_) => NumberView::I32(token.signed_value() as i32),
        NumberTokenView::U32(v) => NumberView::U32(v),
        NumberTokenView::I64(_) => NumberView::I64(token.signed_value() as i64),
        NumberTokenView::U64(v) => NumberView::U64(v),
        NumberTokenView::F32(v) => NumberView::F32(v),
        NumberTokenView::F64(v) => NumberView::F64(v),
    }
}

/// The number that a number token stands for.
pub fn convert_number(token: &NumberToken) -> (r: Number)
    ensures
        r@ == number_of(token@),
{
    match token {
        NumberToken::I8(v) => Number::I8(
            if *v <= 0x7f {
                *v as i8
            } else {
                ((*v - 0x80) as i8) - 0x7f - 1
            },
        ),
        NumberToken::U8(v) => Number::U8(*v),
        NumberToken::I16(v) => Number::I16(
            if *v <= 0x7fff {
                *v as i16
            } else {
                ((*v - 0x8000) as i16) - 0x7fff - 1
            },
        ),
        NumberToken::U16(v) => Number::U16(*v),
        NumberToken::I32(v) => Number::I32(
            if *v <= 0x7fff_ffff {
                *v as i32
            } else {
                ((*v - 0x8000_0000) as i32) - 0x7fff_ffff - 1
            },
        ),
        NumberToken::U32(v) => Number::U32(*v),
        NumberToken::I64(v) => Number::I64(
            if *v <= 0x7fff_ffff_ffff_ffff {
                *v as i64
            } else {
                ((*v - 0x8000_0000_0000_0000) as i64) - 0x7fff_ffff_ffff_ffff - 1
            },
        ),
        NumberToken::U64(v) => Number::U64(*v),
        NumberToken::F32(v) => Number::F32(v.duplicate()),
        NumberToken::F64(v) => Number::F64(v.duplicate()),
    }
}

/// An entry of an object: a key and its value.
#[derive(Debug, PartialEq)]
pub struct KeyValuePair {
    pub key: String,
    pub value: Box<AsonNode>,
}

/// An entry of a map: a node for the name and a node for the value.
#[derive(Debug, PartialEq)]
pub struct NameValuePair {
    pub name: Box<AsonNode>,
    pub value: Box<AsonNode>,
}

/// What a variant carries.
#[derive(Debug, PartialEq)]
pub enum VariantValue {
    /// Nothing: `Type::Member`.
    Empty,
    /// One value: `Type::Member(value)`.
    Value(Box<AsonNode>),
    /// Two values or more: `Type::Member(value, value)`.
    Tuple(Vec<AsonNode>),
    /// Named values: `Type::Member{key: value}`.
    Object(Vec<KeyValuePair>),
}

/// A value of a tagged union.
#[derive(Debug, PartialEq)]
pub struct Variant {
    pub variant_type: String,
    pub member_name: String,
    pub value: VariantValue,
}

/// A node of the value tree.
#[derive(Debug, PartialEq)]
pub enum AsonNode {
    Number(Number),
    Boolean(bool),
    Char(char),
    String(String),
    DateTime(Date),
    Variant(Variant),
    HexByteData(Vec<u8>),
    List(Vec<AsonNode>),
    Tuple(Vec<AsonNode>),
    Object(Vec<KeyValuePair>),
    /// A map: entries of a name and a value, in the order they were written.
    Mapping(Vec<NameValuePair>),
}

/// The mathematical value of a [`VariantValue`].
pub ghost enum VariantValueView {
    Empty,
    Value(Box<NodeView>),
    Tuple(Seq<NodeView>),
    Object(Seq<(Seq<char>, NodeView)>),
}

/// The mathematical value of a [`Variant`].
pub ghost struct VariantView {
    pub variant_type: Seq<char>,
    pub member_name: Seq<char>,
    pub value: VariantValueView,
}

/// The mathematical value of a node: the tree with sequences in place of
/// vectors and strings.
pub ghost enum NodeView {
    Number(NumberView),
    Boolean(bool),
    Char(char),
    String(Seq<char>),
    DateTime(Date),
    Variant(VariantView),
    HexByteData(Seq<u8>),
    List(Seq<NodeView>),
    Tuple(Seq<NodeView>),
    Object(Seq<(Seq<char>, NodeView)>),
    Mapping(Seq<(NodeView, NodeView)>),
}

/// Whether a tree is one that a document can hold: a list and a tuple hold
/// a value, a variant with a tuple holds two, and the trees within are of
/// that kind too.
pub open spec fn well_formed(n: NodeView) -> bool
    decreases n,
{
    match n {
        NodeView::List(items) => items.len() > 0 && forall|i: int|
            0 <= i < items.len() ==> well_formed(#[trigger] items[i]),
        NodeView::Tuple(items) => items.len() > 0 && forall|i: int|
            0 <= i < items.len() ==> well_formed(#[trigger] items[i]),
        NodeView::Object(pairs) => forall|i: int|
            0 <= i < pairs.len() ==> well_formed((#[trigger] pairs[i]).1),
        NodeView::Mapping(entries) => forall|i: int|
            0 <= i < entries.len() ==> well_formed((#[trigger] entries[i]).0) && well_formed(
                entries[i].1,
            ),
        NodeView::Variant(v) => match v.value {
            VariantValueView::Empty => true,
            VariantValueView::Value(value) => well_formed(*value),
            VariantValueView::Tuple(items) => items.len() >= 2 && forall|i: int|
                0 <= i < items.len() ==> well_formed(#[trigger] items[i]),
            VariantValueView::Object(pairs) => forall|i: int|
                0 <= i < pairs.len() ==> well_formed((#[trigger] pairs[i]).1),
        },
        _ => true,
    }
}

impl AsonNode {
    /// The mathematical value of the node.
    pub open spec fn model(&self) -> NodeView
        decreases self,
    {
        match self {
            AsonNode::Number(n) => NodeView::Number(n@),
            AsonNode::Boolean(b) => NodeView::Boolean(*b),
            AsonNode::Char(c) => NodeView::Char(*c),
            AsonNode::String(s) => NodeView::String(s@),
            AsonNode::DateTime(d) => NodeView::DateTime(*d),
            AsonNode::HexByteData(d) => NodeView::HexByteData(d@),
            AsonNode::List(items) => NodeView::List(
                Seq::new(
                    items@.len(),
                    |i: int|
                        if 0 <= i < items.len() {
                            items[i].model()
                        } else {
                            NodeView::Boolean(false)
                        },
                ),
            ),
            AsonNode::Tuple(items) => NodeView::Tuple(
                Seq::new(
                    items@.len(),
                    |i: int|
                        if 0 <= i < items.len() {
                            items[i].model()
                        } else {
                            NodeView::Boolean(false)
                        },
                ),
            ),
            AsonNode::Object(pairs) => NodeView::Object(
                Seq::new(
                    pairs@.len(),
                    |i: int|
                        if 0 <= i < pairs.len() {
                            (pairs[i].key@, (*pairs[i].value).model())
                        } else {
                            (Seq::empty(), NodeView::Boolean(false))
                        },
                ),
            ),
            AsonNode::Mapping(pairs) => NodeView::Mapping(
                Seq::new(
                    pairs@.len(),
                    |i: int|
                        if 0 <= i < pairs.len() {
                            ((*pairs[i].name).model(), (*pairs[i].value).model())
                        } else {
                            (NodeView::Boolean(false), NodeView::Boolean(false))
                        },
                ),
            ),
            AsonNode::Variant(v) => NodeView::Variant(
                VariantView {
                    variant_type: v.variant_type@,
                    member_name: v.member_name@,
                    value: match &v.value {
                        VariantValue::Empty => VariantValueView::Empty,
                        VariantValue::Value(n) => VariantValueView::Value(Box::new((**n).model())),
                        VariantValue::Tuple(items) => VariantValueView::Tuple(
                            Seq::new(
                                items@.len(),
                                |i: int|
                                    if 0 <= i < items.len() {
                                        items[i].model()
                                    } else {
                                        NodeView::Boolean(false)
                                    },
                            ),
                        ),
                        VariantValue::Object(pairs) => VariantValueView::Object(
                            Seq::new(
                                pairs@.len(),
                                |i: int|
                                    if 0 <= i < pairs.len() {
                                        (pairs[i].key@, (*pairs[i].value).model())
                                    } else {
                                        (Seq::empty(), NodeView::Boolean(false))
                                    },
                            ),
                        ),
                    },
                },
            ),
        }
    }
}

impl View for AsonNode {
    type V = NodeView;

    open spec fn view(&self) -> NodeView {
        self.model()
    }
}

/// The values of a sequence of nodes.
pub open spec fn nodes_view(nodes: Seq<AsonNode>) -> Seq<NodeView> {
    Seq::new(nodes.len(), |i: int| nodes[i]@)
}

/// The values of the entries of an object.
pub open spec fn pairs_view(pairs: Seq<KeyValuePair>) -> Seq<(Seq<char>, NodeView)> {
    Seq::new(pairs.len(), |i: int| (pairs[i].key@, (*pairs[i].value)@))
}

/// The values of the entries of a map.
pub open spec fn entries_view(pairs: Seq<NameValuePair>) -> Seq<(NodeView, NodeView)> {
    Seq::new(pairs.len(), |i: int| ((*pairs[i].name)@, (*pairs[i].value)@))
}

impl KeyValuePair {
    /// An entry with the key `key` and the value `value`.
    pub fn new(key: &str, value: AsonNode) -> (r: KeyValuePair)
        ensures
            r.key@ == key@,
            *r.value == value,
    {
        KeyValuePair { key: key.to_owned(), value: Box::new(value) }
    }
}

impl NameValuePair {
    /// An entry with the name `name` and the value `value`.
    pub fn new(name: AsonNode, value: AsonNode) -> (r: NameValuePair)
        ensures
            *r.name == name,
            *r.value == value,
    {
        NameValuePair { name: Box::new(name), value: Box::new(value) }
    }
}

impl Variant {
    /// The variant `variant_type::member_name`, which carries nothing.
    pub fn new(variant_type: &str, member_name: &str) -> (r: Variant)
        ensures
            AsonNode::Variant(r)@ == NodeView::Variant(
                VariantView {
                    variant_type: variant_type@,
                    member_name: member_name@,
                    value: VariantValueView::Empty,
                },
            ),
    {
        Variant {
            variant_type: variant_type.to_owned(),
            member_name: member_name.to_owned(),
            value: VariantValue::Empty,
        }
    }

    /// The variant `variant_type::member_name(value)`.
    pub fn with_value(variant_type: &str, member_name: &str, value: AsonNode) -> (r: Variant)
        ensures
            AsonNode::Variant(r)@ == NodeView::Variant(
                VariantView {
                    variant_type: variant_type@,
                    member_name: member_name@,
                    value: VariantValueView::Value(Box::new(value@)),
                },
            ),
    {
        Variant {
            variant_type: variant_type.to_owned(),
            member_name: member_name.to_owned(),
            value: VariantValue::Value(Box::new(value)),
        }
    }

    /// The variant `variant_type::member_name(values...)`.
    pub fn with_tuple(variant_type: &str, member_name: &str, values: Vec<AsonNode>) -> (r: Variant)
        ensures
            AsonNode::Variant(r)@ == NodeView::Variant(
                VariantView {
                    variant_type: variant_type@,
                    member_name: member_name@,
                    value: VariantValueView::Tuple(nodes_view(values@)),
                },
            ),
    {
        let r = Variant {
            variant_type: variant_type.to_owned(),
            member_name: member_name.to_owned(),
            value: VariantValue::Tuple(values),
        };
        assert(AsonNode::Variant(r)@->Variant_0.value->Tuple_0 =~= nodes_view(values@));
        r
    }

    /// The variant `variant_type::member_name{pairs...}`.
    pub fn with_object(variant_type: &str, member_name: &str, pairs: Vec<KeyValuePair>) -> (r:
        Variant)
        ensures
            AsonNode::Variant(r)@ == NodeView::Variant(
                VariantView {
                    variant_type: variant_type@,
                    member_name: member_name@,
                    value: VariantValueView::Object(pairs_view(pairs@)),
                },
            ),
    {
        let r = Variant {
            variant_type: variant_type.to_owned(),
            member_name: member_name.to_owned(),
            value: VariantValue::Object(pairs),
        };
        assert(AsonNode::Variant(r)@->Variant_0.value->Object_0 =~= pairs_view(pairs@));
        r
    }
}

impl AsonNode {
    /// The list of `items`.
    pub fn list(items: Vec<AsonNode>) -> (r: AsonNode)
        ensures
            r@ == NodeView::List(nodes_view(items@)),
    {
        let r = AsonNode::List(items);
        assert(r@->List_0 =~= nodes_view(items@));
        r
    }

    /// The tuple of `items`.
    pub fn tuple(items: Vec<AsonNode>) -> (r: AsonNode)
        ensures
            r@ == NodeView::Tuple(nodes_view(items@)),
    {
        let r = AsonNode::Tuple(items);
        assert(r@->Tuple_0 =~= nodes_view(items@));
        r
    }

    /// The object of `pairs`.
    pub fn object(pairs: Vec<KeyValuePair>) -> (r: AsonNode)
        ensures
            r@ == NodeView::Object(pairs_view(pairs@)),
    {
        let r = AsonNode::Object(pairs);
        assert(r@->Object_0 =~= pairs_view(pairs@));
        r
    }

    /// The map of `pairs`.
    pub fn mapping(pairs: Vec<NameValuePair>) -> (r: AsonNode)
        ensures
            r@ == NodeView::Mapping(entries_view(pairs@)),
    {
        let r = AsonNode::Mapping(pairs);
        assert(r@->Mapping_0 =~= entries_view(pairs@));
        r
    }
}

} // verus!
