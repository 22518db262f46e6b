use ason::ast::{AsonNode, KeyValuePair, NameValuePair, Number, Variant};
use ason::de::{
    from_str as decoder_of, ArrayAccessor, MapAccessor, ObjectAccessor, OptionStart,
    TupleAccessor, VariantAccessor, VariantStyle,
};
use ason::location::Location;
use ason::parser::{parse_from_char_stream, parse_from_str, parse_from_token_stream, Parser};
use ason::peekableiter::PeekableIter;
use ason::token::{NumberToken, Token, TokenWithRange};
use ason::AsonError;

fn i32_node(n: i32) -> AsonNode {
    AsonNode::Number(Number::I32(n))
}

fn string_node(s: &str) -> AsonNode {
    AsonNode::String(s.to_owned())
}

fn at(index: usize, line: usize, column: usize) -> Location {
    Location::new_position(index, line, column)
}

fn error_at(message: &str, index: usize, line: usize, column: usize) -> AsonError {
    AsonError::MessageWithLocation(message.to_owned(), at(index, line, column))
}

fn end_of_document(message: &str) -> AsonError {
    AsonError::UnexpectedEndOfDocument(message.to_owned())
}

#[test]
fn test_signed_literals_at_the_bounds_of_their_types() {
    assert_eq!(
        parse_from_str("+127_i8").unwrap(),
        AsonNode::Number(Number::I8(127))
    );
    assert_eq!(
        parse_from_str("+128_i8"),
        Err(AsonError::MessageWithLocation(
            "The i8 number 128 is overflowed.".to_owned(),
            Location::new_range(0, 0, 0, 7)
        ))
    );
    assert_eq!(
        parse_from_str("-128_i8").unwrap(),
        AsonNode::Number(Number::I8(-128))
    );
    assert_eq!(
        parse_from_str("-129_i8"),
        Err(AsonError::MessageWithLocation(
            "Can not convert \"129\" to negative i8.".to_owned(),
            Location::new_range(0, 0, 0, 7)
        ))
    );
    assert_eq!(
        parse_from_str("-1_u8"),
        Err(AsonError::MessageWithLocation(
            "The minus sign cannot be applied to unsigned numbers.".to_owned(),
            Location::new_range(0, 0, 0, 5)
        ))
    );
    assert_eq!(parse_from_str("127_i8").unwrap(), AsonNode::Number(Number::I8(127)));
    assert!(parse_from_str("128_i8").is_err());
    assert_eq!(parse_from_str("0_i8").unwrap(), AsonNode::Number(Number::I8(0)));
    assert_eq!(parse_from_str("-0_i8").unwrap(), AsonNode::Number(Number::I8(0)));
    assert_eq!(parse_from_str("-1_i8").unwrap(), AsonNode::Number(Number::I8(-1)));
    assert_eq!(
        parse_from_str("32767_i16").unwrap(),
        AsonNode::Number(Number::I16(32767))
    );
    assert!(parse_from_str("32768_i16").is_err());
    assert_eq!(
        parse_from_str("-32768_i16").unwrap(),
        AsonNode::Number(Number::I16(-32768))
    );
    assert!(parse_from_str("-32769_i16").is_err());
    assert_eq!(
        parse_from_str("2147483647").unwrap(),
        AsonNode::Number(Number::I32(2147483647))
    );
    assert!(parse_from_str("2147483648").is_err());
    assert_eq!(
        parse_from_str("-2147483648").unwrap(),
        AsonNode::Number(Number::I32(-2147483648))
    );
    assert!(parse_from_str("-2147483649").is_err());
    assert_eq!(
        parse_from_str("9223372036854775807_i64").unwrap(),
        AsonNode::Number(Number::I64(9223372036854775807))
    );
    assert!(parse_from_str("9223372036854775808_i64").is_err());
    assert_eq!(
        parse_from_str("-9223372036854775808_i64").unwrap(),
        AsonNode::Number(Number::I64(-9223372036854775808))
    );
    assert!(parse_from_str("-9223372036854775809_i64").is_err());
    assert_eq!(
        parse_from_str("255_u8").unwrap(),
        AsonNode::Number(Number::U8(255))
    );
}

#[test]
fn test_stray_commas_are_reported() {
    let input = "[1,2,\n\n,\n,6\n\n//c\n\n7\n8\n]";
    // the comma behind `2` takes the line breaks; the next comma is no value
    assert_eq!(
        parse_from_str(input),
        Err(error_at("Unexpected token.", 7, 2, 0))
    );
    // without the stray commas the line breaks and the comment separate
    assert_eq!(
        parse_from_str("[1,2,\n\n\n6\n\n//c\n\n7\n8\n]").unwrap(),
        AsonNode::List(vec![i32_node(1), i32_node(2), i32_node(6), i32_node(7), i32_node(8)])
    );
}

#[test]
fn test_variant_with_three_values() {
    assert_eq!(
        parse_from_str("Color::RGB(255_u8, 127_u8, 63_u8)").unwrap(),
        AsonNode::Variant(Variant::with_tuple(
            "Color",
            "RGB",
            vec![
                AsonNode::Number(Number::U8(255)),
                AsonNode::Number(Number::U8(127)),
                AsonNode::Number(Number::U8(63)),
            ]
        ))
    );
    // one value is carried as such
    assert_eq!(
        parse_from_str("Color::Grey(\n127_u8\n)").unwrap(),
        AsonNode::Variant(Variant::with_value(
            "Color",
            "Grey",
            AsonNode::Number(Number::U8(127))
        ))
    );
    assert_eq!(
        parse_from_str("Color::Grey()"),
        Err(error_at(
            "The value of tuple style variant can not be empty.",
            12,
            0,
            12
        ))
    );
}

#[test]
fn test_more_than_one_node() {
    assert_eq!(
        parse_from_str("true false"),
        Err(error_at("Document has more than one node.", 5, 0, 5))
    );
    assert_eq!(
        parse_from_str("1\n2"),
        Err(error_at("Document has more than one node.", 1, 0, 1))
    );
    assert_eq!(parse_from_str(""), Err(end_of_document("Incomplete document.")));
    assert_eq!(
        parse_from_str("\n  \n"),
        Err(end_of_document("Incomplete document."))
    );
    // an error of the lexer behind the node comes before it is looked for
    assert_eq!(
        parse_from_str("true @"),
        Err(AsonError::MessageWithLocation(
            "Unexpected char '@'.".to_owned(),
            Location::new_range(5, 0, 5, 1)
        ))
    );
    // an error in front of it is found first
    assert_eq!(
        parse_from_str("true false @"),
        Err(error_at("Document has more than one node.", 5, 0, 5))
    );
}

#[test]
fn test_missing_separator_in_object() {
    assert_eq!(
        parse_from_str("{id:123 name:\"foo\"}"),
        Err(error_at("Expect token: right brace.", 8, 0, 8))
    );
    assert_eq!(
        parse_from_str("{123: 1}"),
        Err(error_at("Expect a key name for object.", 1, 0, 1))
    );
    assert_eq!(
        parse_from_str("{id 1}"),
        Err(error_at("Expect token: colon sign.", 4, 0, 4))
    );
    assert_eq!(
        parse_from_str("{id"),
        Err(end_of_document("Expect token: colon sign."))
    );
    assert_eq!(
        parse_from_str("{id: 1"),
        Err(end_of_document("Expect token: right brace."))
    );
    assert_eq!(
        parse_from_str("[1"),
        Err(end_of_document("Expect token: right bracket."))
    );
    assert_eq!(
        parse_from_str("(1 2)"),
        Err(error_at("Expect token: right parenthese.", 3, 0, 3))
    );
    assert_eq!(parse_from_str("()"), Err(error_at("Tuple can not be empty.", 1, 0, 1)));
    assert_eq!(parse_from_str(")"), Err(error_at("Unexpected token.", 0, 0, 0)));
    assert_eq!(parse_from_str("id"), Err(error_at("Unexpected token.", 0, 0, 0)));
}

#[test]
fn test_trailing_separator_before_every_closer() {
    let list = AsonNode::List(vec![i32_node(1), i32_node(2)]);
    for input in ["[1,2]", "[1,2,]", "[1,2\n]", "[1,2,\n]", "[1,2\n,\n]"] {
        assert_eq!(parse_from_str(input).unwrap(), list, "{:?}", input);
    }
    let tuple = AsonNode::Tuple(vec![i32_node(1), i32_node(2)]);
    for input in ["(1,2)", "(1,2,)", "(1,2\n)", "(\n1,2,\n)"] {
        assert_eq!(parse_from_str(input).unwrap(), tuple, "{:?}", input);
    }
    let object = AsonNode::Object(vec![KeyValuePair::new("a", i32_node(1))]);
    for input in ["{a:1}", "{a:1,}", "{a:1\n}", "{\na:1,\n}"] {
        assert_eq!(parse_from_str(input).unwrap(), object, "{:?}", input);
    }
    let map = AsonNode::Mapping(vec![NameValuePair::new(i32_node(1), i32_node(2))]);
    for input in ["[1:2]", "[1:2,]", "[1:2\n]", "[\n1:2,\n]"] {
        assert_eq!(parse_from_str(input).unwrap(), map, "{:?}", input);
    }
    let tuple_variant = AsonNode::Variant(Variant::with_tuple("A", "B", vec![i32_node(1), i32_node(2)]));
    for input in ["A::B(1,2)", "A::B(1,2,)", "A::B(1,2\n)", "A::B(\n1,2,\n)"] {
        assert_eq!(parse_from_str(input).unwrap(), tuple_variant, "{:?}", input);
    }
    let struct_variant =
        AsonNode::Variant(Variant::with_object("A", "B", vec![KeyValuePair::new("a", i32_node(1))]));
    for input in ["A::B{a:1}", "A::B{a:1,}", "A::B{a:1\n}", "A::B{\na:1,\n}"] {
        assert_eq!(parse_from_str(input).unwrap(), struct_variant, "{:?}", input);
    }
    // two separators are one too many
    assert_eq!(parse_from_str("[1,2,,]"), Err(error_at("Unexpected token.", 5, 0, 5)));
    // a separator alone is no element
    assert_eq!(parse_from_str("[,]"), Err(error_at("Unexpected token.", 1, 0, 1)));
}

#[test]
fn test_comma_and_line_break_separate_alike() {
    let pairs = [
        ("[1,2,3]", "[1\n2\n3]"),
        ("(1,2,3)", "(1\n2\n3)"),
        ("{a:1,b:2}", "{a:1\nb:2}"),
        ("[1:2,3:4]", "[1:2\n3:4]"),
        ("A::B(1,2)", "A::B(1\n2)"),
        ("A::B{a:1,b:2}", "A::B{a:1\nb:2}"),
        ("[(1,2),{a:[3,4]}]", "[(1\n2)\n{a:[3\n4]}]"),
    ];
    for (with_commas, with_line_breaks) in pairs {
        assert_eq!(
            parse_from_str(with_commas).unwrap(),
            parse_from_str(with_line_breaks).unwrap(),
            "{:?}",
            with_commas
        );
    }
    // a comma is no line break where no separator is asked for
    assert!(parse_from_str("[\n1]").is_ok());
    assert_eq!(parse_from_str("[,1]"), Err(error_at("Unexpected token.", 1, 0, 1)));
    assert!(parse_from_str("{a\n:\n1}").is_ok());
    assert_eq!(
        parse_from_str("{a,:1}"),
        Err(error_at("Expect token: colon sign.", 2, 0, 2))
    );
}

#[test]
fn test_list_or_map_is_decided_at_the_first_value() {
    assert_eq!(
        parse_from_str("[1, 2]").unwrap(),
        AsonNode::List(vec![i32_node(1), i32_node(2)])
    );
    assert_eq!(
        parse_from_str("[1: 2]").unwrap(),
        AsonNode::Mapping(vec![NameValuePair::new(i32_node(1), i32_node(2))])
    );
    // the colon behind a line break, and a line break behind the colon
    assert_eq!(
        parse_from_str("[\n1\n:\n2\n]").unwrap(),
        AsonNode::Mapping(vec![NameValuePair::new(i32_node(1), i32_node(2))])
    );
    // a first value that is a construct itself
    assert_eq!(
        parse_from_str("[ (1,2): \"x\" ]").unwrap(),
        AsonNode::Mapping(vec![NameValuePair::new(
            AsonNode::Tuple(vec![i32_node(1), i32_node(2)]),
            string_node("x")
        )])
    );
    assert_eq!(
        parse_from_str("[ [1: 2], [3] ]").unwrap(),
        AsonNode::List(vec![
            AsonNode::Mapping(vec![NameValuePair::new(i32_node(1), i32_node(2))]),
            AsonNode::List(vec![i32_node(3)]),
        ])
    );
    // the first value decides for all that follow
    assert_eq!(
        parse_from_str("[1, 2: 3]"),
        Err(error_at("Expect token: right bracket.", 5, 0, 5))
    );
    assert_eq!(
        parse_from_str("[1: 2, 3]"),
        Err(error_at("Expect token: colon sign.", 8, 0, 8))
    );
    // duplicate names are kept, in order
    assert_eq!(
        parse_from_str("[1: 2, 1: 3]").unwrap(),
        AsonNode::Mapping(vec![
            NameValuePair::new(i32_node(1), i32_node(2)),
            NameValuePair::new(i32_node(1), i32_node(3)),
        ])
    );
    assert_eq!(
        parse_from_str("{a: 1, a: 2}").unwrap(),
        AsonNode::Object(vec![
            KeyValuePair::new("a", i32_node(1)),
            KeyValuePair::new("a", i32_node(2)),
        ])
    );
    // nothing between the brackets
    assert_eq!(parse_from_str("[]").unwrap(), AsonNode::Mapping(vec![]));
    assert_eq!(parse_from_str("[\n]").unwrap(), AsonNode::Mapping(vec![]));
    assert_eq!(parse_from_str("{}").unwrap(), AsonNode::Object(vec![]));
}

#[test]
fn test_parse_from_characters_and_tokens() {
    assert_eq!(
        parse_from_char_stream("[1, 2]".chars().collect()).unwrap(),
        AsonNode::List(vec![i32_node(1), i32_node(2)])
    );
    let token = |token: Token, index: usize| {
        Ok(TokenWithRange::new(token, Location::new_range(index, 0, index, 1)))
    };
    let items = vec![
        token(Token::LeftParen, 0),
        token(Token::Number(NumberToken::I8(0xff)), 1),
        token(Token::Comma, 2),
        token(Token::Boolean(true), 3),
        token(Token::RightParen, 4),
    ];
    assert_eq!(
        parse_from_token_stream(PeekableIter::from_items(items.clone())).unwrap(),
        AsonNode::Tuple(vec![
            AsonNode::Number(Number::I8(-1)),
            AsonNode::Boolean(true)
        ])
    );
    let mut parser = Parser::new(PeekableIter::from_items(items));
    assert_eq!(parser.peek_token(1).unwrap(), Some(&Token::Number(NumberToken::I8(0xff))));
    assert_eq!(
        parser.peek_range(4).unwrap(),
        Some(Location::new_range(4, 0, 4, 1))
    );
    assert_eq!(parser.peek_range(5).unwrap(), None);
    assert_eq!(parser.expect_token(0, &Token::LeftParen).unwrap(), true);
    assert_eq!(parser.expect_token(0, &Token::LeftBrace).unwrap(), false);
    assert_eq!(
        parser.expect_token_ignore_newline(2, &Token::Comma).unwrap(),
        Some(false)
    );
    assert_eq!(
        parser.expect_token_ignore_newline(0, &Token::Comma).unwrap(),
        None
    );
    assert_eq!(parser.next_token().unwrap(), Some(Token::LeftParen));
    assert_eq!(parser.consume_new_line_if_exist().unwrap(), false);
    assert_eq!(parser.consume_new_line_or_comma_if_exist().unwrap(), false);
    assert_eq!(
        parser.parse_node().unwrap(),
        AsonNode::Number(Number::I8(-1))
    );
    assert_eq!(parser.consume_new_line_or_comma_if_exist().unwrap(), true);
    assert_eq!(
        parser.consume_right_paren(),
        Err(error_at("Expect token: right parenthese.", 3, 0, 3))
    );
    assert_eq!(parser.last_token_range(), Location::new_range(3, 0, 3, 1));
    assert_eq!(parser.consume_right_paren(), Ok(()));
    assert_eq!(
        parser.consume_colon(),
        Err(end_of_document("Expect token: colon sign."))
    );
    assert_eq!(
        parser.consume_right_bracket(),
        Err(end_of_document("Expect token: right bracket."))
    );
    assert_eq!(
        parser.consume_right_brace(),
        Err(end_of_document("Expect token: right brace."))
    );
    assert_eq!(parser.next_token().unwrap(), None);
}

#[test]
fn test_decode_option() {
    let mut de = decoder_of("Option::Some(123)");
    assert_eq!(de.deserialize_option(), Ok(OptionStart::Something));
    assert_eq!(de.deserialize_i32(), Ok(123));
    assert_eq!(de.consume_right_paren(), Ok(()));
    assert_eq!(de.end(), Ok(()));

    let mut de = decoder_of("Option::None");
    assert_eq!(de.deserialize_option(), Ok(OptionStart::Nothing));
    assert_eq!(de.end(), Ok(()));

    // another member, or parentheses where none belong
    let mut de = decoder_of("Option::Maybe(1)");
    assert_eq!(
        de.deserialize_option(),
        Err(AsonError::MessageWithLocation(
            "Invalid member of variant \"Option\".".to_owned(),
            Location::new_range(13, 0, 13, 1)
        ))
    );
    let mut de = decoder_of("Option::None(1)");
    assert_eq!(
        de.deserialize_option(),
        Err(AsonError::MessageWithLocation(
            "Invalid member of variant \"Option\".".to_owned(),
            Location::new_range(12, 0, 12, 1)
        ))
    );
    let mut de = decoder_of("Option::Some 1");
    assert_eq!(
        de.deserialize_option(),
        Err(AsonError::MessageWithLocation(
            "Invalid member of variant \"Option\".".to_owned(),
            Location::new_range(13, 0, 13, 1)
        ))
    );
    // with nothing behind the variant the error stands at the variant
    let mut de = decoder_of("Option::Some");
    assert_eq!(
        de.deserialize_option(),
        Err(AsonError::MessageWithLocation(
            "Invalid member of variant \"Option\".".to_owned(),
            Location::new_range(0, 0, 0, 12)
        ))
    );
    let mut de = decoder_of("Result::Ok(1)");
    assert_eq!(
        de.deserialize_option(),
        Err(AsonError::MessageWithLocation(
            "Expect the \"Option\" type of variant.".to_owned(),
            Location::new_range(0, 0, 0, 10)
        ))
    );
    let mut de = decoder_of(" 123");
    assert_eq!(
        de.deserialize_option(),
        Err(error_at("Expect the \"Option\" type of variant.", 1, 0, 1))
    );
    let mut de = decoder_of("");
    assert_eq!(
        de.deserialize_option(),
        Err(end_of_document("Expect the \"Option\" type of variant."))
    );
    // the closing parenthesis is missing
    let mut de = decoder_of("Option::Some(123");
    assert_eq!(de.deserialize_option(), Ok(OptionStart::Something));
    assert_eq!(de.deserialize_i32(), Ok(123));
    assert_eq!(
        de.consume_right_paren(),
        Err(end_of_document("Expect token: \"close parenthese \")\"\"."))
    );
}

#[test]
fn test_decode_map_of_options() {
    let mut de = decoder_of("[\"foo\": Option::Some(\"hi\"), \"bar\": Option::None]");
    let mut entries: Vec<(String, Option<String>)> = vec![];
    assert_eq!(de.deserialize_map(), Ok(()));
    let mut accessor = MapAccessor::new();
    while accessor.next_key_seed(&mut de).unwrap() {
        let key = de.deserialize_string().unwrap();
        accessor.next_value_seed(&mut de).unwrap();
        let value = match de.deserialize_option().unwrap() {
            OptionStart::Nothing => None,
            OptionStart::Something => {
                let value = de.deserialize_str().unwrap();
                de.consume_right_paren().unwrap();
                Some(value)
            }
        };
        entries.push((key, value));
    }
    assert_eq!(de.consume_right_bracket(), Ok(()));
    assert_eq!(de.end(), Ok(()));
    assert_eq!(
        entries,
        vec![
            ("foo".to_owned(), Some("hi".to_owned())),
            ("bar".to_owned(), None),
        ]
    );
}

#[test]
fn test_decode_wrong_kinds() {
    let wrong = "[";
    assert_eq!(
        decoder_of(wrong).deserialize_bool(),
        Err(error_at("Expect a \"Boolean\" value.", 0, 0, 0))
    );
    assert_eq!(
        decoder_of(wrong).deserialize_i8(),
        Err(error_at("Expect an \"i8\" value.", 0, 0, 0))
    );
    assert_eq!(
        decoder_of(wrong).deserialize_i16(),
        Err(error_at("Expect an \"i16\" value.", 0, 0, 0))
    );
    assert_eq!(
        decoder_of(wrong).deserialize_i32(),
        Err(error_at("Expect an \"i32\" value.", 0, 0, 0))
    );
    assert_eq!(
        decoder_of(wrong).deserialize_i64(),
        Err(error_at("Expect an \"i64\" value.", 0, 0, 0))
    );
    assert_eq!(
        decoder_of(wrong).deserialize_u8(),
        Err(error_at("Expect an \"u8\" value.", 0, 0, 0))
    );
    assert_eq!(
        decoder_of(wrong).deserialize_u16(),
        Err(error_at("Expect an \"u16\" value.", 0, 0, 0))
    );
    assert_eq!(
        decoder_of(wrong).deserialize_u32(),
        Err(error_at("Expect an \"u32\" value.", 0, 0, 0))
    );
    assert_eq!(
        decoder_of(wrong).deserialize_u64(),
        Err(error_at("Expect an \"u64\" value.", 0, 0, 0))
    );
    assert_eq!(
        decoder_of(wrong).deserialize_f32(),
        Err(error_at("Expect a \"f32\" value.", 0, 0, 0))
    );
    assert_eq!(
        decoder_of(wrong).deserialize_f64(),
        Err(error_at("Expect a \"f64\" value.", 0, 0, 0))
    );
    assert_eq!(
        decoder_of(wrong).deserialize_char(),
        Err(error_at("Expect a \"Char\" value.", 0, 0, 0))
    );
    assert_eq!(
        decoder_of(wrong).deserialize_string(),
        Err(error_at("Expect a \"String\" value.", 0, 0, 0))
    );
    assert_eq!(
        decoder_of(wrong).deserialize_bytes(),
        Err(error_at("Expect a \"Bytes\" value.", 0, 0, 0))
    );
    assert_eq!(
        decoder_of(wrong).deserialize_identifier(),
        Err(error_at("Expect an identifier for object.", 0, 0, 0))
    );
    // a number of another bucket is no value of the bucket asked for
    assert_eq!(
        decoder_of("1_i16").deserialize_i32(),
        Err(error_at("Expect an \"i32\" value.", 0, 0, 0))
    );
    assert_eq!(
        decoder_of("1").deserialize_f64(),
        Err(error_at("Expect a \"f64\" value.", 0, 0, 0))
    );
    assert_eq!(
        decoder_of("").deserialize_bool(),
        Err(end_of_document("Expect a \"Boolean\" value."))
    );
    assert_eq!(
        decoder_of("").deserialize_identifier(),
        Err(end_of_document("Expect an identifier for object."))
    );
    assert_eq!(
        decoder_of("1").deserialize_seq(),
        Err(error_at("Expect a \"List\".", 0, 0, 0))
    );
    assert_eq!(
        decoder_of("1").deserialize_tuple(),
        Err(error_at("Expect a \"Tuple\".", 0, 0, 0))
    );
    assert_eq!(
        decoder_of("1").deserialize_map(),
        Err(error_at("Expect a \"Map\".", 0, 0, 0))
    );
    assert_eq!(
        decoder_of("1").deserialize_struct(),
        Err(error_at("Expect an \"Object\".", 0, 0, 0))
    );
    assert_eq!(
        decoder_of("").deserialize_seq(),
        Err(end_of_document("Expect a \"List\"."))
    );
    assert_eq!(
        decoder_of("1").deserialize_enum("Color"),
        Err(error_at("Expect a \"Variant\".", 0, 0, 0))
    );
    assert_eq!(
        decoder_of("").deserialize_enum("Color"),
        Err(end_of_document("Expect a \"Variant\"."))
    );
    assert_eq!(
        decoder_of("Shape::Red").deserialize_enum("Color"),
        Err(AsonError::MessageWithLocation(
            "Expect the type \"Color\" of variant.".to_owned(),
            Location::new_range(0, 0, 0, 10)
        ))
    );
    // an error of the lexer is handed on as it is
    assert_eq!(
        decoder_of("@").deserialize_bool(),
        Err(AsonError::MessageWithLocation(
            "Unexpected char '@'.".to_owned(),
            Location::new_range(0, 0, 0, 1)
        ))
    );
}

#[test]
fn test_decode_unsupported_kinds() {
    let mut de = decoder_of("true");
    assert_eq!(
        de.deserialize_unit(),
        AsonError::Message("Does not support Unit.".to_owned())
    );
    assert_eq!(
        de.deserialize_unit_struct(),
        AsonError::Message("Does not support \"Unit\" style Struct.".to_owned())
    );
    assert_eq!(
        de.deserialize_newtype_struct(),
        AsonError::Message("Does not support \"New-Type\" style Struct.".to_owned())
    );
    assert_eq!(
        de.deserialize_tuple_struct(),
        AsonError::Message("Does not support \"Tuple\" style Struct.".to_owned())
    );
    assert_eq!(de.deserialize_any(), error_at("Unexpected value.", 0, 0, 0));
    // nothing was read
    assert_eq!(de.deserialize_bool(), Ok(true));
    assert_eq!(de.deserialize_any(), error_at("Unexpected value.", 0, 0, 0));
}

#[test]
fn test_decode_trailing_token() {
    let mut de = decoder_of("true false");
    assert_eq!(de.deserialize_bool(), Ok(true));
    assert_eq!(
        de.end(),
        Err(error_at("Document has more than one node.", 5, 0, 5))
    );
    let mut de = decoder_of("true @");
    assert_eq!(de.deserialize_bool(), Ok(true));
    assert_eq!(
        de.end(),
        Err(AsonError::MessageWithLocation(
            "Unexpected char '@'.".to_owned(),
            Location::new_range(5, 0, 5, 1)
        ))
    );
}

#[test]
fn test_decode_elements_step_by_step() {
    // a list
    let mut de = decoder_of("[\n1\n2,3,\n]");
    assert_eq!(de.deserialize_seq(), Ok(()));
    let mut list = ArrayAccessor::new();
    let mut values = vec![];
    while list.next_element_seed(&mut de).unwrap() {
        values.push(de.deserialize_i32().unwrap());
    }
    assert_eq!(values, vec![1, 2, 3]);
    assert_eq!(de.consume_right_bracket(), Ok(()));
    assert_eq!(de.end(), Ok(()));

    let mut de = decoder_of("[1");
    assert_eq!(de.deserialize_seq(), Ok(()));
    let mut list = ArrayAccessor::new();
    assert_eq!(list.next_element_seed(&mut de), Ok(true));
    assert_eq!(de.deserialize_i32(), Ok(1));
    assert_eq!(
        list.next_element_seed(&mut de),
        Err(end_of_document("Incomplete List."))
    );

    let mut de = decoder_of("[]");
    assert_eq!(de.deserialize_seq(), Ok(()));
    assert_eq!(ArrayAccessor::new().next_element_seed(&mut de), Ok(false));
    assert_eq!(de.consume_right_bracket(), Ok(()));

    // a tuple does not look for its end
    let mut de = decoder_of("(1 2)");
    assert_eq!(de.deserialize_tuple(), Ok(()));
    let mut tuple = TupleAccessor::new();
    assert_eq!(tuple.next_element_seed(&mut de), Ok(true));
    assert_eq!(de.deserialize_i32(), Ok(1));
    assert_eq!(
        tuple.next_element_seed(&mut de),
        Err(error_at("Expect a comma or new-line.", 3, 0, 3))
    );
    let mut de = decoder_of("(1,");
    assert_eq!(de.deserialize_tuple(), Ok(()));
    let mut tuple = TupleAccessor::new();
    assert_eq!(tuple.next_element_seed(&mut de), Ok(true));
    assert_eq!(de.deserialize_i32(), Ok(1));
    assert_eq!(
        tuple.next_element_seed(&mut de),
        Err(end_of_document("Incomplete Tuple."))
    );
    let mut de = decoder_of("(1\n)");
    assert_eq!(de.deserialize_tuple(), Ok(()));
    assert_eq!(TupleAccessor::new().next_element_seed(&mut de), Ok(true));
    assert_eq!(de.deserialize_i32(), Ok(1));
    assert_eq!(de.end_tuple(), Ok(()));
    assert_eq!(de.end(), Ok(()));
    let mut de = decoder_of("(1 2)");
    assert_eq!(de.deserialize_tuple(), Ok(()));
    assert_eq!(TupleAccessor::new().next_element_seed(&mut de), Ok(true));
    assert_eq!(de.deserialize_i32(), Ok(1));
    assert_eq!(
        de.end_tuple(),
        Err(error_at("Expect token: close parenthese \")\".", 3, 0, 3))
    );

    // an object
    let mut de = decoder_of("{id\n:\n1 name: \"x\"}");
    assert_eq!(de.deserialize_struct(), Ok(()));
    let mut object = ObjectAccessor::new();
    assert_eq!(object.next_key_seed(&mut de), Ok(true));
    assert_eq!(de.deserialize_identifier(), Ok("id".to_owned()));
    assert_eq!(object.next_value_seed(&mut de), Ok(()));
    assert_eq!(de.deserialize_i32(), Ok(1));
    assert_eq!(
        object.next_key_seed(&mut de),
        Err(error_at("Expect a comma or new-line.", 8, 2, 2))
    );
    let mut de = decoder_of("{id 1}");
    assert_eq!(de.deserialize_struct(), Ok(()));
    let mut object = ObjectAccessor::new();
    assert_eq!(object.next_key_seed(&mut de), Ok(true));
    assert_eq!(de.deserialize_identifier(), Ok("id".to_owned()));
    assert_eq!(
        object.next_value_seed(&mut de),
        Err(error_at("Expect token: colon sign.", 4, 0, 4))
    );
    let mut de = decoder_of("{");
    assert_eq!(de.deserialize_struct(), Ok(()));
    assert_eq!(
        ObjectAccessor::new().next_key_seed(&mut de),
        Err(end_of_document("Incomplete Object."))
    );
    let mut de = decoder_of("[");
    assert_eq!(de.deserialize_map(), Ok(()));
    assert_eq!(
        MapAccessor::new().next_key_seed(&mut de),
        Err(end_of_document("Incomplete Map."))
    );
    let mut de = decoder_of("{}");
    assert_eq!(de.deserialize_struct(), Ok(()));
    assert_eq!(ObjectAccessor::new().next_key_seed(&mut de), Ok(false));
    assert_eq!(de.consume_right_brace(), Ok(()));
    let mut de = decoder_of("{]");
    assert_eq!(de.deserialize_struct(), Ok(()));
    assert_eq!(ObjectAccessor::new().next_key_seed(&mut de), Ok(true));
    assert_eq!(
        de.consume_right_brace(),
        Err(error_at("Expect token: close brace \"}\".", 1, 0, 1))
    );
    assert_eq!(
        de.consume_right_bracket(),
        Err(end_of_document("Expect token: \"close bracket \"]\"\"."))
    );
    assert_eq!(
        de.consume_colon(),
        Err(end_of_document("Expect token: \"colon sign\"."))
    );
}

#[test]
fn test_decode_variants_step_by_step() {
    let mut de = decoder_of("Color::Red");
    assert_eq!(
        de.deserialize_enum("Color"),
        Ok(("Red".to_owned(), VariantStyle::Unit))
    );
    assert_eq!(de.end(), Ok(()));

    let mut de = decoder_of("Color::Grey(\n7_u8\n)");
    assert_eq!(
        de.deserialize_enum("Color"),
        Ok(("Grey".to_owned(), VariantStyle::Parenthesized))
    );
    let accessor = VariantAccessor::new("Grey");
    assert_eq!(accessor.variant_seed(), "Grey");
    assert_eq!(accessor.newtype_variant_seed(&mut de), Ok(()));
    assert_eq!(de.deserialize_u8(), Ok(7));
    assert_eq!(accessor.end_newtype_variant(&mut de), Ok(()));
    assert_eq!(de.end(), Ok(()));

    let mut de = decoder_of("Shape::Rect{w: 1}");
    assert_eq!(
        de.deserialize_enum("Shape"),
        Ok(("Rect".to_owned(), VariantStyle::Braced))
    );
    assert_eq!(de.deserialize_struct(), Ok(()));
    assert_eq!(de.peek_token(0).unwrap(), Some(&Token::Identifier("w".to_owned())));
    assert_eq!(de.peek_range(1).unwrap(), Some(Location::new_range(13, 0, 13, 1)));
    assert_eq!(de.expect_token(1, &Token::Colon), Ok(true));
    assert_eq!(de.next_token().unwrap(), Some(Token::Identifier("w".to_owned())));
    assert_eq!(de.consume_new_line_if_exist(), Ok(false));
    assert_eq!(de.consume_new_line_or_comma_if_exist(), Ok(false));
    assert_eq!(de.consume_token(&Token::Colon, "colon sign"), Ok(()));
}

#[test]
fn test_one_value_variant_stands_in_parentheses() {
    // another token in place of the closing parenthesis
    let mut de = decoder_of("Color::Grey(11_u8]");
    assert_eq!(
        de.deserialize_enum("Color"),
        Ok(("Grey".to_owned(), VariantStyle::Parenthesized))
    );
    let accessor = VariantAccessor::new("Grey");
    assert_eq!(accessor.newtype_variant_seed(&mut de), Ok(()));
    assert_eq!(de.deserialize_u8(), Ok(11));
    assert_eq!(
        accessor.end_newtype_variant(&mut de),
        Err(error_at("Expect token: close parenthese \")\".", 17, 0, 17))
    );

    // the end of the document in its place
    let mut de = decoder_of("Color::Grey(11_u8\n");
    assert!(de.deserialize_enum("Color").is_ok());
    assert_eq!(accessor.newtype_variant_seed(&mut de), Ok(()));
    assert_eq!(de.deserialize_u8(), Ok(11));
    assert_eq!(
        accessor.end_newtype_variant(&mut de),
        Err(end_of_document("Expect token: \"close parenthese \")\"\"."))
    );

    // another token in place of the opening parenthesis
    let mut de = decoder_of("Color::Grey{11_u8}");
    assert_eq!(
        de.deserialize_enum("Color"),
        Ok(("Grey".to_owned(), VariantStyle::Braced))
    );
    assert_eq!(
        accessor.newtype_variant_seed(&mut de),
        Err(error_at("Expect token: open parenthese \"(\".", 11, 0, 11))
    );
    let mut de = decoder_of("Color::Grey");
    assert!(de.deserialize_enum("Color").is_ok());
    assert_eq!(
        accessor.newtype_variant_seed(&mut de),
        Err(end_of_document("Expect token: \"open parenthese \"(\"\"."))
    );

    // line breaks around the value
    let mut de = decoder_of("Color::Grey(\n11_u8\n)");
    assert!(de.deserialize_enum("Color").is_ok());
    assert_eq!(accessor.newtype_variant_seed(&mut de), Ok(()));
    assert_eq!(de.deserialize_u8(), Ok(11));
    assert_eq!(accessor.end_newtype_variant(&mut de), Ok(()));
    assert_eq!(de.end(), Ok(()));
}

#[test]
fn test_stream_that_an_error_leaves() {
    // a missing separator leaves the element where it is
    let mut de = decoder_of("[11 13]");
    assert_eq!(de.deserialize_seq(), Ok(()));
    let mut list = ArrayAccessor::new();
    assert_eq!(list.next_element_seed(&mut de), Ok(true));
    assert_eq!(de.deserialize_i32(), Ok(11));
    assert_eq!(
        list.next_element_seed(&mut de),
        Err(error_at("Expect a comma or new-line.", 4, 0, 4))
    );
    assert_eq!(de.deserialize_i32(), Ok(13));
    assert_eq!(de.consume_right_bracket(), Ok(()));
    assert_eq!(de.end(), Ok(()));

    let mut de = decoder_of("{a: 1 b: 2}");
    assert_eq!(de.deserialize_struct(), Ok(()));
    let mut object = ObjectAccessor::new();
    assert_eq!(object.next_key_seed(&mut de), Ok(true));
    assert_eq!(de.deserialize_identifier(), Ok("a".to_owned()));
    assert_eq!(object.next_value_seed(&mut de), Ok(()));
    assert_eq!(de.deserialize_i32(), Ok(1));
    assert_eq!(
        object.next_key_seed(&mut de),
        Err(error_at("Expect a comma or new-line.", 6, 0, 6))
    );
    assert_eq!(de.deserialize_identifier(), Ok("b".to_owned()));

    let mut de = decoder_of("[1: 2 3: 4]");
    assert_eq!(de.deserialize_map(), Ok(()));
    let mut map = MapAccessor::new();
    assert_eq!(map.next_key_seed(&mut de), Ok(true));
    assert_eq!(de.deserialize_i32(), Ok(1));
    assert_eq!(map.next_value_seed(&mut de), Ok(()));
    assert_eq!(de.deserialize_i32(), Ok(2));
    assert_eq!(
        map.next_key_seed(&mut de),
        Err(error_at("Expect a comma or new-line.", 6, 0, 6))
    );
    assert_eq!(de.deserialize_i32(), Ok(3));

    let mut de = decoder_of("(1 2)");
    assert_eq!(de.deserialize_tuple(), Ok(()));
    let mut tuple = TupleAccessor::new();
    assert_eq!(tuple.next_element_seed(&mut de), Ok(true));
    assert_eq!(de.deserialize_i32(), Ok(1));
    assert!(tuple.next_element_seed(&mut de).is_err());
    assert_eq!(de.deserialize_i32(), Ok(2));

    // a value of another kind is taken with the error
    let mut de = decoder_of("true 1");
    assert_eq!(
        de.deserialize_i32(),
        Err(error_at("Expect an \"i32\" value.", 0, 0, 0))
    );
    assert_eq!(de.deserialize_i32(), Ok(1));

    // a token that is not the expected one is taken with the error
    let mut de = decoder_of(", )");
    assert_eq!(
        de.consume_right_paren(),
        Err(error_at("Expect token: close parenthese \")\".", 0, 0, 0))
    );
    assert_eq!(de.consume_right_paren(), Ok(()));
    assert_eq!(
        de.consume_right_paren(),
        Err(end_of_document("Expect token: \"close parenthese \")\"\"."))
    );

    // a token that begins no node is left where it is
    let token = |token: Token, index: usize| {
        Ok(TokenWithRange::new(token, Location::new_range(index, 0, index, 1)))
    };
    let mut parser = Parser::new(PeekableIter::from_items(vec![
        token(Token::Comma, 3),
        token(Token::Number(NumberToken::I32(2)), 4),
    ]));
    assert_eq!(parser.parse_node(), Err(error_at("Unexpected token.", 3, 0, 3)));
    assert_eq!(parser.parse_node(), Err(error_at("Unexpected token.", 3, 0, 3)));
    assert_eq!(parser.next_token().unwrap(), Some(Token::Comma));
    assert_eq!(parser.parse_node().unwrap(), i32_node(2));
    assert_eq!(
        parser.parse_node(),
        Err(end_of_document("Incomplete document."))
    );

    // the parser's expected token is taken with the error too
    let mut parser = Parser::new(PeekableIter::from_items(vec![
        token(Token::Comma, 0),
        token(Token::Colon, 1),
    ]));
    assert_eq!(
        parser.consume_colon(),
        Err(error_at("Expect token: colon sign.", 0, 0, 0))
    );
    assert_eq!(parser.consume_colon(), Ok(()));
    assert_eq!(
        parser.consume_colon(),
        Err(end_of_document("Expect token: colon sign."))
    );
}

#[test]
fn test_trailing_comma_at_every_place_of_a_nested_document() {
    let text = "[[1],(2,A::B),{a:A::C(3),b:[]},[4:5],A::D{x:(6,7)}]";
    let tree = parse_from_str(text).unwrap();
    let chars: Vec<char> = text.chars().collect();
    let mut places = 0;
    for at in 1..chars.len() {
        let closer = matches!(chars[at], ')' | ']' | '}');
        let before = chars[at - 1];
        if closer && !matches!(before, '(' | '[' | '{' | ',') {
            let mut with_comma: String = chars[..at].iter().collect();
            with_comma.push(',');
            with_comma.extend(chars[at..].iter());
            assert_eq!(parse_from_str(&with_comma).unwrap(), tree, "{:?}", with_comma);
            places += 1;
        }
    }
    assert_eq!(places, 8);
    // behind an opening token there is no element that a comma could end
    assert_eq!(
        parse_from_str("[[1],(2,A::B),{a:A::C(3),b:[,]}]"),
        Err(error_at("Unexpected token.", 28, 0, 28))
    );
}

#[test]
fn test_line_breaks_for_all_commas_of_a_nested_document() {
    let text = "[[1,2],(2,A::B),{a:A::C(3,4),b:[]},[4:5,6:7],A::D{x:(6,7),y:8},]";
    let tree = parse_from_str(text).unwrap();
    let commas = text.matches(',').count();
    assert_eq!(commas, 12);
    // each choice of commas to replace, taken from the bits of a number
    for choice in 0u32..(1u32 << commas) {
        let mut seen = 0;
        let replaced: String = text
            .chars()
            .map(|c| {
                if c == ',' {
                    seen += 1;
                    if choice >> (seen - 1) & 1 == 1 { '\n' } else { ',' }
                } else {
                    c
                }
            })
            .collect();
        assert_eq!(parse_from_str(&replaced).unwrap(), tree, "{:?}", replaced);
    }
}
