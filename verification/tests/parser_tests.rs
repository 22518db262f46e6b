use ason::ast::{AsonNode, KeyValuePair, NameValuePair, Number, Variant};
use ason::date::Date;
use ason::location::Location;
use ason::parser::parse_from_str;
use ason::AsonError;

fn date_of(text: &str) -> Date {
    let d = chrono::DateTime::parse_from_rfc3339(text).unwrap();
    Date {
        timestamp: d.timestamp(),
        nanosecond: d.timestamp_subsec_nanos(),
        offset: d.offset().local_minus_utc(),
    }
}

#[test]
fn test_parse_simple_value() {
    assert_eq!(
        parse_from_str(
            r#"
        123
        "#
        )
        .unwrap(),
        AsonNode::Number(Number::I32(123))
    );

    assert_eq!(
        parse_from_str(
            r#"
        true
        "#
        )
        .unwrap(),
        AsonNode::Boolean(true)
    );

    assert_eq!(
        parse_from_str(
            r#"
        '🍒'
        "#
        )
        .unwrap(),
        AsonNode::Char('🍒')
    );

    assert_eq!(
        parse_from_str(
            r#"
        "hello"
        "#
        )
        .unwrap(),
        AsonNode::String("hello".to_owned())
    );

    assert_eq!(
        parse_from_str(
            r#"
        d"2024-03-17 10:01:11+08:00"
        "#
        )
        .unwrap(),
        AsonNode::DateTime(date_of("2024-03-17 10:01:11+08:00"))
    );
}

#[test]
fn test_parse_byte_data() {
    assert_eq!(
        parse_from_str(
            r#"
        h"11 13 17 19"
        "#
        )
        .unwrap(),
        AsonNode::HexByteData(vec![0x11u8, 0x13, 0x17, 0x19])
    );
}

#[test]
fn test_parse_object() {
    let expect_object1 = AsonNode::Object(vec![
        KeyValuePair {
            key: "id".to_owned(),
            value: Box::new(AsonNode::Number(Number::I32(123))),
        },
        KeyValuePair {
            key: "name".to_owned(),
            value: Box::new(AsonNode::String("foo".to_owned())),
        },
    ]);

    assert_eq!(
        parse_from_str(
            r#"
        {id:123,name:"foo"}
        "#
        )
        .unwrap(),
        expect_object1
    );

    assert_eq!(
        parse_from_str(
            r#"
        {
            id:123
            name:"foo"
        }
        "#
        )
        .unwrap(),
        expect_object1
    );

    assert_eq!(
        parse_from_str(
            r#"
        {
            id:123,
            name:"foo"
        }
        "#
        )
        .unwrap(),
        expect_object1
    );

    assert_eq!(
        parse_from_str(
            r#"
        {
            id: 123,
            name: "foo",
        }
        "#
        )
        .unwrap(),
        expect_object1
    );

    assert_eq!(
        parse_from_str(
            r#"
        {
            id: 123
            addr: Option::Some({
                city: "ShenZhen"
                street: Option::None
            })
        }
        "#
        )
        .unwrap(),
        AsonNode::Object(vec![
            KeyValuePair {
                key: "id".to_owned(),
                value: Box::new(AsonNode::Number(Number::I32(123))),
            },
            KeyValuePair {
                key: "addr".to_owned(),
                value: Box::new(AsonNode::Variant(Variant::with_value(
                    "Option",
                    "Some",
                    AsonNode::Object(vec![
                        KeyValuePair {
                            key: "city".to_owned(),
                            value: Box::new(AsonNode::String("ShenZhen".to_owned())),
                        },
                        KeyValuePair {
                            key: "street".to_owned(),
                            value: Box::new(AsonNode::Variant(Variant::new("Option", "None"))),
                        },
                    ])
                ))),
            },
        ])
    );

    // // err: invalid key name (should be enclosed with quotes)
    // assert!(matches!(
    //     parse_from_str(r#"{"id": 123}"#),
    //     Err(Error::MessageWithLocation(
    //         _,
    //         Location {
    //             // unit: 0,
    //             index: 1,
    //             line: 0,
    //             column: 1,
    //             length: 0
    //         }
    //     ))
    // ));

    // // err: invalid key name
    // assert!(matches!(
    //     parse_from_str(r#"{123}"#),
    //     Err(Error::MessageWithLocation(
    //         _,
    //         Location {
    //             // unit: 0,
    //             index: 1,
    //             line: 0,
    //             column: 1,
    //             length: 0
    //         }
    //     ))
    // ));

    // err: missing ':'
    assert!(matches!(
        parse_from_str(r#"{id}"#),
        Err(AsonError::MessageWithLocation(
            _,
            Location {
                // unit: 0,
                index: 3,
                line: 0,
                column: 3,
                length: 0
            }
        ))
    ));

    // err: missing value, the '}' is not the expected token
    assert!(matches!(
        parse_from_str(r#"{id:}"#),
        Err(AsonError::MessageWithLocation(
            _,
            Location {
                // unit: 0,
                index: 4,
                line: 0,
                column: 4,
                length: 0
            }
        ))
    ));

    // err: missing a separator (comma or new-line)
    assert!(matches!(
        parse_from_str(r#"{id: 123 name: "foo"}"#),
        Err(AsonError::MessageWithLocation(
            _,
            Location {
                // unit: 0,
                index: 9,
                line: 0,
                column: 9,
                length: 0
            }
        ))
    ));

    // err: missing :, EOF
    assert!(matches!(
        parse_from_str(r#"{id"#),
        Err(AsonError::UnexpectedEndOfDocument(_))
    ));

    // err: missing value, EOF
    assert!(matches!(
        parse_from_str(r#"{id:"#),
        Err(AsonError::UnexpectedEndOfDocument(_))
    ));

    // err: missing '}', EOF
    assert!(matches!(
        parse_from_str(r#"{id:123"#),
        Err(AsonError::UnexpectedEndOfDocument(_))
    ));
}

#[test]
fn test_parse_map() {
    let expect_object1 = AsonNode::Mapping(vec![
        NameValuePair {
            name: Box::new(AsonNode::Number(Number::I32(123))),
            value: Box::new(AsonNode::String("foo".to_owned())),
        },
        NameValuePair {
            name: Box::new(AsonNode::Number(Number::I32(456))),
            value: Box::new(AsonNode::String("hello".to_owned())),
        },
    ]);

    assert_eq!(
        parse_from_str(
            r#"
        [123: "foo", 456: "hello"]
        "#
        )
        .unwrap(),
        expect_object1
    );
}

#[test]
fn test_parse_list() {
    let expect_list1 = AsonNode::List(vec![
        AsonNode::Number(Number::I32(123)),
        AsonNode::Number(Number::I32(456)),
        AsonNode::Number(Number::I32(789)),
    ]);

    assert_eq!(
        parse_from_str(
            r#"
        [123,456,789]
        "#
        )
        .unwrap(),
        expect_list1
    );

    assert_eq!(
        parse_from_str(
            r#"
        [
            123
            456
            789
        ]
        "#
        )
        .unwrap(),
        expect_list1
    );

    assert_eq!(
        parse_from_str(
            r#"
        [
            123,
            456,
            789
        ]
        "#
        )
        .unwrap(),
        expect_list1
    );

    assert_eq!(
        parse_from_str(
            r#"
        [
            123,
            456,
            789,
        ]
        "#
        )
        .unwrap(),
        expect_list1
    );

    // err: missing a separator (comma or new-line)
    assert!(matches!(
        parse_from_str(r#"[123 456]"#),
        Err(AsonError::MessageWithLocation(
            _,
            Location {
                // unit: 0,
                index: 5,
                line: 0,
                column: 5,
                length: 0
            }
        ))
    ));

    // err: missing ']', EOF
    assert!(matches!(
        parse_from_str(r#"[123"#),
        Err(AsonError::UnexpectedEndOfDocument(_))
    ));

    // err: missing ']', EOF
    assert!(matches!(
        parse_from_str(r#"[123,"#),
        Err(AsonError::UnexpectedEndOfDocument(_))
    ));

    // err: missing ']', EOF
    assert!(matches!(
        parse_from_str(r#"[123,456"#),
        Err(AsonError::UnexpectedEndOfDocument(_))
    ));
}

#[test]
fn test_parse_tuple() {
    let expect_tuple1 = AsonNode::Tuple(vec![
        AsonNode::Number(Number::I32(123)),
        AsonNode::String("foo".to_owned()),
        AsonNode::Boolean(true),
    ]);

    assert_eq!(
        parse_from_str(
            r#"
        (123,"foo",true)
        "#
        )
        .unwrap(),
        expect_tuple1
    );

    assert_eq!(
        parse_from_str(
            r#"
        (
            123
            "foo"
            true
        )
        "#
        )
        .unwrap(),
        expect_tuple1
    );

    assert_eq!(
        parse_from_str(
            r#"
        (
            123,
            "foo",
            true
        )
        "#
        )
        .unwrap(),
        expect_tuple1
    );

    assert_eq!(
        parse_from_str(
            r#"
        (
            123,
            "foo",
            true,
        )
        "#
        )
        .unwrap(),
        expect_tuple1
    );

    // err: empty tuple
    assert!(matches!(
        parse_from_str(r#"()"#),
        Err(AsonError::MessageWithLocation(
            _,
            Location {
                // unit: 0,
                index: 1,
                line: 0,
                column: 1,
                length: 0
            }
        ))
    ));

    // err: missing a separator (comma or new-line)
    assert!(matches!(
        parse_from_str(r#"(123 456)"#),
        Err(AsonError::MessageWithLocation(
            _,
            Location {
                // unit: 0,
                index: 5,
                line: 0,
                column: 5,
                length: 0
            }
        ))
    ));

    // err: missing ')', EOF
    assert!(matches!(
        parse_from_str(r#"(123"#),
        Err(AsonError::UnexpectedEndOfDocument(_))
    ));

    // err: missing ')', EOF
    assert!(matches!(
        parse_from_str(r#"(123,"#),
        Err(AsonError::UnexpectedEndOfDocument(_))
    ));

    // err: missing ')', EOF
    assert!(matches!(
        parse_from_str(r#"(123,456"#),
        Err(AsonError::UnexpectedEndOfDocument(_))
    ));
}

#[test]
fn test_parse_variant() {
    // empty value
    assert_eq!(
        parse_from_str(
            r#"
        Option::None
        "#
        )
        .unwrap(),
        AsonNode::Variant(Variant::new("Option", "None"))
    );

    // single value
    assert_eq!(
        parse_from_str(
            r#"
        Option::Some(123)
        "#
        )
        .unwrap(),
        AsonNode::Variant(Variant::with_value(
            "Option",
            "Some",
            AsonNode::Number(Number::I32(123))
        ))
    );

    // tuple value
    assert_eq!(
        parse_from_str(
            r#"
        Color::RGB(100,75,0)
        "#
        )
        .unwrap(),
        AsonNode::Variant(Variant::with_tuple(
            "Color",
            "RGB",
            vec![
                AsonNode::Number(Number::I32(100)),
                AsonNode::Number(Number::I32(75)),
                AsonNode::Number(Number::I32(0)),
            ]
        ))
    );

    // object value
    assert_eq!(
        parse_from_str(
            r#"
        Shape::Rect{width:123, height:456}
        "#
        )
        .unwrap(),
        AsonNode::Variant(Variant::with_object(
            "Shape",
            "Rect",
            vec![
                KeyValuePair::new("width", AsonNode::Number(Number::I32(123))),
                KeyValuePair::new("height", AsonNode::Number(Number::I32(456))),
            ]
        ))
    );

    // err: missing value(s)
    assert!(matches!(
        parse_from_str(r#"Option::Some()"#),
        Err(AsonError::MessageWithLocation(
            _,
            Location {
                // unit: 0,
                index: 13,
                line: 0,
                column: 13,
                length: 0
            }
        ))
    ));

    // err: missing a separator (comma or new-line)
    assert!(matches!(
        parse_from_str(r#"Color::RGB(11 13 17)"#),
        Err(AsonError::MessageWithLocation(
            _,
            Location {
                // unit: 0,
                index: 14,
                line: 0,
                column: 14,
                length: 0
            }
        ))
    ));

    // err: missing ')', EOF
    assert!(matches!(
        parse_from_str(r#"Color::RGB(11,13"#),
        Err(AsonError::UnexpectedEndOfDocument(_))
    ));

    // err: missing ':'
    assert!(matches!(
        parse_from_str(r#"Color::Rect{width}"#),
        Err(AsonError::MessageWithLocation(
            _,
            Location {
                // unit: 0,
                index: 17,
                line: 0,
                column: 17,
                length: 0
            }
        ))
    ));

    // err: missing value
    assert!(matches!(
        parse_from_str(r#"Color::Rect{width:}"#),
        Err(AsonError::MessageWithLocation(
            _,
            Location {
                // unit: 0,
                index: 18,
                line: 0,
                column: 18,
                length: 0
            }
        ))
    ));

    // err: missing a separator (comma or new-line)
    assert!(matches!(
        parse_from_str(r#"Color::Rect{width:11 height:13}"#),
        Err(AsonError::MessageWithLocation(
            _,
            Location {
                // unit: 0,
                index: 21,
                line: 0,
                column: 21,
                length: 0
            }
        ))
    ));

    // err: missing '}', EOF
    assert!(matches!(
        parse_from_str(r#"Color::Rect{width:11"#),
        Err(AsonError::UnexpectedEndOfDocument(_))
    ));
}

#[test]
fn test_parse_mixed() {
    assert_eq!(
        parse_from_str(
            r#"
        {
            id:123
            name:"hello"
            orders: [
                (1, "foo", true)
                (2, "bar", false)
            ]
            group: {
                active: true
                permissions:[
                    {number:11, title: "read"}
                    {number:13, title: "write"}
                ]
            }
        }
        "#
        )
        .unwrap(),
        AsonNode::Object(vec![
            KeyValuePair {
                key: "id".to_owned(),
                value: Box::new(AsonNode::Number(Number::I32(123))),
            },
            KeyValuePair {
                key: "name".to_owned(),
                value: Box::new(AsonNode::String("hello".to_owned())),
            },
            KeyValuePair {
                key: "orders".to_owned(),
                value: Box::new(AsonNode::List(vec![
                    AsonNode::Tuple(vec![
                        AsonNode::Number(Number::I32(1)),
                        AsonNode::String("foo".to_owned()),
                        AsonNode::Boolean(true),
                    ]),
                    AsonNode::Tuple(vec![
                        AsonNode::Number(Number::I32(2)),
                        AsonNode::String("bar".to_owned()),
                        AsonNode::Boolean(false),
                    ]),
                ])),
            },
            KeyValuePair {
                key: "group".to_owned(),
                value: Box::new(AsonNode::Object(vec![
                    KeyValuePair {
                        key: "active".to_owned(),
                        value: Box::new(AsonNode::Boolean(true)),
                    },
                    KeyValuePair {
                        key: "permissions".to_owned(),
                        value: Box::new(AsonNode::List(vec![
                            AsonNode::Object(vec![
                                KeyValuePair {
                                    key: "number".to_owned(),
                                    value: Box::new(AsonNode::Number(Number::I32(11))),
                                },
                                KeyValuePair {
                                    key: "title".to_owned(),
                                    value: Box::new(AsonNode::String("read".to_owned())),
                                },
                            ]),
                            AsonNode::Object(vec![
                                KeyValuePair {
                                    key: "number".to_owned(),
                                    value: Box::new(AsonNode::Number(Number::I32(13))),
                                },
                                KeyValuePair {
                                    key: "title".to_owned(),
                                    value: Box::new(AsonNode::String("write".to_owned())),
                                },
                            ]),
                        ])),
                    },
                ])),
            },
        ])
    );

    // err: document does not end properly
    assert!(matches!(
        parse_from_str(r#"true false"#),
        Err(AsonError::MessageWithLocation(
            _,
            Location {
                // unit: 0,
                index: 5,
                line: 0,
                column: 5,
                length: 0
            }
        ))
    ));
}
